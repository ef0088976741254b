//! What each form of an argument for an Ethereum node gives, and what a list of them gives.

use crate::capabilities::NodeCapabilities;
use crate::network_args::{NetworkArg, NetworkArgError};
use crate::network_args;
use crate::networks::{AdapterModel, ConnectionType, NetworksModel};
use crate::networks;
use crate::table_laws;
use crate::text;
use vstd::prelude::*;

verus! {

/// A URL without a network name before it is refused as such, whatever follows its scheme.
pub proof fn bare_urls_are_refused(location: Seq<char>, connection_type: ConnectionType)
    ensures
        network_args::network_of("http://"@ + location, connection_type) == Err::<
            (Seq<char>, AdapterModel),
            _,
        >(NetworkArgError::BareUrl),
        network_args::network_of("https://"@ + location, connection_type) == Err::<
            (Seq<char>, AdapterModel),
            _,
        >(NetworkArgError::BareUrl),
        network_args::network_of("wss://"@ + location, connection_type) == Err::<
            (Seq<char>, AdapterModel),
            _,
        >(NetworkArgError::BareUrl),
{
    lemma_begins("http://"@, location);
    lemma_begins("https://"@, location);
    lemma_begins("wss://"@, location);
}

/// No other argument is refused as a URL without a network name.
pub proof fn only_bare_urls_are_refused_as_such(arg: Seq<char>, connection_type: ConnectionType)
    requires
        network_args::network_of(arg, connection_type) == Err::<(Seq<char>, AdapterModel), _>(
            NetworkArgError::BareUrl,
        ),
    ensures
        "http://"@.is_prefix_of(arg) || "https://"@.is_prefix_of(arg) || "wss://"@.is_prefix_of(
            arg,
        ),
{
}

/// A text and what is added to it begin with the text.
proof fn lemma_begins(start: Seq<char>, rest: Seq<char>)
    ensures
        start.is_prefix_of(start + rest),
{
    assert((start + rest).subrange(0, start.len() as int) =~= start);
}

/// An argument without a colon lacks a part.
pub proof fn arguments_without_colons_lack_a_part(
    arg: Seq<char>,
    connection_type: ConnectionType,
)
    requires
        !arg.contains(':'),
    ensures
        network_args::network_of(arg, connection_type) == Err::<(Seq<char>, AdapterModel), _>(
            NetworkArgError::MissingPart,
        ),
{
    lemma_no_colon(arg);
    reveal_strlit("wss://");
    reveal_strlit("http://");
    reveal_strlit("https://");
    if "wss://"@.is_prefix_of(arg) {
        assert(arg[3] == "wss://"@[3]);
    }
    if "http://"@.is_prefix_of(arg) {
        assert(arg[4] == "http://"@[4]);
    }
    if "https://"@.is_prefix_of(arg) {
        assert(arg[5] == "https://"@[5]);
    }
}

/// A text without a colon has no first colon.
proof fn lemma_no_colon(s: Seq<char>)
    requires
        !s.contains(':'),
    ensures
        text::first_index(s, ':') == s.len(),
{
    text::lemma_first_index(s, ':');
    if text::first_index(s, ':') < s.len() {
        assert(s.contains(s[text::first_index(s, ':')]));
    }
}

/// An argument that begins with a colon has no name.
pub proof fn arguments_need_a_name(rest: Seq<char>, connection_type: ConnectionType)
    ensures
        network_args::network_of(seq![':'] + rest, connection_type) == Err::<
            (Seq<char>, AdapterModel),
            _,
        >(NetworkArgError::EmptyName),
{
    let arg = seq![':'] + rest;
    text::lemma_first_index_unique(arg, ':', 0);
    reveal_strlit("wss://");
    reveal_strlit("http://");
    reveal_strlit("https://");
    assert(arg[0] == ':');
    assert("wss://"@[0] != ':' && "http://"@[0] != ':' && "https://"@[0] != ':');
    if "wss://"@.is_prefix_of(arg) {
        assert(arg[0] == "wss://"@[0]);
    }
    if "http://"@.is_prefix_of(arg) {
        assert(arg[0] == "http://"@[0]);
    }
    if "https://"@.is_prefix_of(arg) {
        assert(arg[0] == "https://"@[0]);
    }
}

/// An argument with one colon alone lacks a part, unless it is a URL without a name.
pub proof fn arguments_need_two_colons(
    name: Seq<char>,
    rest: Seq<char>,
    connection_type: ConnectionType,
)
    requires
        name.len() > 0,
        !name.contains(':'),
        !rest.contains(':'),
        !"http://"@.is_prefix_of(name + seq![':'] + rest),
        !"https://"@.is_prefix_of(name + seq![':'] + rest),
        !"wss://"@.is_prefix_of(name + seq![':'] + rest),
    ensures
        network_args::network_of(name + seq![':'] + rest, connection_type) == Err::<
            (Seq<char>, AdapterModel),
            _,
        >(NetworkArgError::MissingPart),
{
    let arg = name + seq![':'] + rest;
    assert forall|j: int| 0 <= j < name.len() implies arg[j] != ':' by {
        assert(arg[j] == name[j]);
    }
    assert(arg[name.len() as int] == ':');
    text::lemma_first_index_unique(arg, ':', name.len() as int);
    assert(arg.skip((name.len() + 1) as int) =~= rest);
    assert(arg.take(name.len() as int) =~= name);
    lemma_no_colon(rest);
}

/// What the three forms of an argument give: the network is what stands before the first colon,
/// the node is reached in the way of the list, and it has the capabilities that stand between the
/// first two colons, or all of them where nothing stands there or the second colon belongs to an
/// `http`, `https`, `ws` or `wss` URL.
pub proof fn arguments_name_their_nodes(
    name: Seq<char>,
    part: Seq<char>,
    rest: Seq<char>,
    connection_type: ConnectionType,
)
    requires
        name.len() > 0,
        !name.contains(':'),
        !part.contains(':'),
        !"http://"@.is_prefix_of(name + seq![':'] + part + seq![':'] + rest),
        !"https://"@.is_prefix_of(name + seq![':'] + part + seq![':'] + rest),
        !"wss://"@.is_prefix_of(name + seq![':'] + part + seq![':'] + rest),
    ensures
        network_args::network_of(
            name + seq![':'] + part + seq![':'] + rest,
            connection_type,
        ) matches Ok((network, adapter)) && {
            let url_alone = part == "http"@ || part == "https"@ || part == "ws"@ || part == "wss"@;
            &&& network == name
            &&& adapter.endpoint.connection_type == connection_type
            &&& adapter.endpoint.url == (if url_alone {
                part + seq![':'] + rest
            } else {
                rest
            })
            &&& url_alone || part.len() == 0 ==> adapter.capabilities.archive
                && adapter.capabilities.traces
            &&& !url_alone && part.len() > 0 ==> adapter.capabilities == NodeCapabilities::named_in(
                part,
            )
        },
{
    let arg = name + seq![':'] + part + seq![':'] + rest;
    let after = arg.skip((name.len() + 1) as int);
    assert forall|j: int| 0 <= j < name.len() implies arg[j] != ':' by {
        assert(arg[j] == name[j]);
    }
    assert(arg[name.len() as int] == ':');
    text::lemma_first_index_unique(arg, ':', name.len() as int);
    assert(arg.take(name.len() as int) =~= name);
    assert(after =~= part + seq![':'] + rest);
    assert forall|j: int| 0 <= j < part.len() implies after[j] != ':' by {
        assert(after[j] == part[j]);
    }
    assert(after[part.len() as int] == ':');
    text::lemma_first_index_unique(after, ':', part.len() as int);
    assert(after.take(part.len() as int) =~= part);
    assert(after.skip((part.len() + 1) as int) =~= rest);
    assert(arg.skip((name.len() + 1) as int) == after);
}

/// An argument that is read shows the network and the node that it names.
pub proof fn parts_are_the_fields(network: NetworkArg)
    ensures
        network.parts().0 == network.name@,
        network.parts().1.capabilities == network.capabilities,
        network.parts().1.endpoint.connection_type == network.endpoint.connection_type,
        network.parts().1.endpoint.url == network.endpoint.url@,
{
}

/// What the operator is told of each error.
pub proof fn errors_are_explained(error: NetworkArgError)
    ensures
        error == NetworkArgError::BareUrl ==> error.explanation()
            == "Is your Ethereum node string missing a network name? Try 'mainnet:' + the Ethereum node URL."@,
        error == NetworkArgError::MissingPart ==> error.explanation()
            == "A network name must be provided alongside the Ethereum node location. Try e.g. 'mainnet:URL'."@,
        error == NetworkArgError::EmptyName ==> error.explanation()
            == "Ethereum network name cannot be an empty string"@,
{
}

/// No arguments give no networks. One argument more at the end of an accepted list gives its
/// network a node more, after the others, and leaves the other networks alone; a network that is
/// new comes last.
pub proof fn arguments_add_their_nodes(
    args: Seq<Seq<char>>,
    arg: Seq<char>,
    connection_type: ConnectionType,
)
    ensures
        network_args::networks_of(Seq::empty(), connection_type) matches Ok(none)
            && none.names.len() == 0 && none.adapters.dom() =~= Set::empty(),
        network_args::networks_of(args, connection_type) matches Ok(before) ==> (
        network_args::network_of(arg, connection_type) matches Ok((name, adapter)) ==> (
        network_args::networks_of(args.push(arg), connection_type) matches Ok(after) && {
            &&& after.adapters.contains_key(name)
            &&& after.adapters[name] == (if before.adapters.contains_key(name) {
                before.adapters[name]
            } else {
                Seq::empty()
            }).push(adapter)
            &&& after.names == (if before.names.contains(name) {
                before.names
            } else {
                before.names.push(name)
            })
            &&& forall|other: Seq<char>|
                other != name ==> (#[trigger] after.adapters.contains_key(other)
                    <==> before.adapters.contains_key(other)) && (before.adapters.contains_key(
                    other,
                ) ==> after.adapters[other] == before.adapters[other])
        })),
{
    assert(args.push(arg).drop_last() =~= args);
    if network_args::networks_of(args, connection_type) is Ok && network_args::network_of(
        arg,
        connection_type,
    ) is Ok {
        let before = network_args::networks_of(args, connection_type)->Ok_0;
        let (name, adapter) = network_args::network_of(arg, connection_type)->Ok_0;
        table_laws::inserting_adds_a_node(before, name, adapter);
    }
}

/// A list is refused for the first of its arguments that is refused, and for no other reason.
pub proof fn lists_are_refused_for_the_first_error(
    args: Seq<Seq<char>>,
    connection_type: ConnectionType,
)
    ensures
        network_args::networks_of(args, connection_type) matches Err(error) ==> exists|k: int|
            0 <= k < args.len() && network_args::network_of(#[trigger] args[k], connection_type)
                == Err::<(Seq<char>, AdapterModel), _>(error) && forall|j: int|
                0 <= j < k ==> network_args::network_of(#[trigger] args[j], connection_type) is Ok,
        (forall|k: int|
            0 <= k < args.len() ==> network_args::network_of(
                #[trigger] args[k],
                connection_type,
            ) is Ok) ==> network_args::networks_of(args, connection_type) is Ok,
    decreases args.len(),
{
    if args.len() > 0 {
        let rest = args.drop_last();
        let n = args.len() - 1;
        lists_are_refused_for_the_first_error(rest, connection_type);
        assert(forall|i: int| 0 <= i < rest.len() ==> #[trigger] rest[i] == args[i]);
        assert(args[n] == args.last());
        if network_args::networks_of(rest, connection_type) is Err {
            let error = network_args::networks_of(rest, connection_type)->Err_0;
            let k = choose|k: int|
                0 <= k < rest.len() && network_args::network_of(
                    #[trigger] rest[k],
                    connection_type,
                ) == Err::<(Seq<char>, AdapterModel), _>(error) && forall|j: int|
                    0 <= j < k ==> network_args::network_of(
                        #[trigger] rest[j],
                        connection_type,
                    ) is Ok;
            assert(args[k] == rest[k]);
            assert forall|j: int| 0 <= j < k implies network_args::network_of(
                #[trigger] args[j],
                connection_type,
            ) is Ok by {
                assert(rest[j] == args[j]);
            }
        } else {
            network_args::accepted_lists_hold_every_argument(rest, connection_type);
            assert forall|j: int| 0 <= j < n implies network_args::network_of(
                #[trigger] args[j],
                connection_type,
            ) is Ok by {
                assert(rest[j] == args[j]);
            }
        }
    }
}

/// The lists are refused for the error of the first that is refused: that for RPC before that for
/// IPC, and that before the one for web sockets.
pub proof fn the_first_list_with_an_error_decides(
    rpc: Seq<Seq<char>>,
    ipc: Seq<Seq<char>>,
    ws: Seq<Seq<char>>,
)
    ensures
        network_args::networks_of(rpc, ConnectionType::RPC) matches Err(error)
            ==> network_args::all_networks(rpc, ipc, ws) == Err::<NetworksModel, _>(error),
        network_args::networks_of(rpc, ConnectionType::RPC) is Ok ==> (network_args::networks_of(
            ipc,
            ConnectionType::IPC,
        ) matches Err(error) ==> network_args::all_networks(rpc, ipc, ws) == Err::<
            NetworksModel,
            _,
        >(error)),
        network_args::networks_of(rpc, ConnectionType::RPC) is Ok && network_args::networks_of(
            ipc,
            ConnectionType::IPC,
        ) is Ok ==> (network_args::networks_of(ws, ConnectionType::WS) matches Err(error)
            ==> network_args::all_networks(rpc, ipc, ws) == Err::<NetworksModel, _>(error)),
{
}

/// Once all three lists are accepted, a network has the nodes of the last list that names it, with
/// the cheapest first; and the networks stand in the order in which the lists name them, RPC
/// before IPC before web sockets.
pub proof fn later_lists_replace_nodes(
    rpc: Seq<Seq<char>>,
    ipc: Seq<Seq<char>>,
    ws: Seq<Seq<char>>,
    name: Seq<char>,
)
    ensures
        network_args::networks_of(rpc, ConnectionType::RPC) matches Ok(r) ==> (
        network_args::networks_of(ipc, ConnectionType::IPC) matches Ok(i) ==> (
        network_args::networks_of(ws, ConnectionType::WS) matches Ok(w) ==> (
        network_args::all_networks(rpc, ipc, ws) matches Ok(table) && {
            let known = r.names + i.names.filter(|n: Seq<char>| !r.names.contains(n));
            &&& table.names == known + w.names.filter(|n: Seq<char>| !known.contains(n))
            &&& table.adapters.contains_key(name) <==> r.adapters.contains_key(name)
                || i.adapters.contains_key(name) || w.adapters.contains_key(name)
            &&& w.adapters.contains_key(name) ==> table.adapters[name] == networks::by_cost(
                w.adapters[name],
            )
            &&& !w.adapters.contains_key(name) && i.adapters.contains_key(name)
                ==> table.adapters[name] == networks::by_cost(i.adapters[name])
            &&& !w.adapters.contains_key(name) && !i.adapters.contains_key(name)
                && r.adapters.contains_key(name) ==> table.adapters[name] == networks::by_cost(
                r.adapters[name],
            )
        }))),
{
    if network_args::networks_of(rpc, ConnectionType::RPC) is Ok && network_args::networks_of(
        ipc,
        ConnectionType::IPC,
    ) is Ok && network_args::networks_of(ws, ConnectionType::WS) is Ok {
        let r = network_args::networks_of(rpc, ConnectionType::RPC)->Ok_0;
        let i = network_args::networks_of(ipc, ConnectionType::IPC)->Ok_0;
        let w = network_args::networks_of(ws, ConnectionType::WS)->Ok_0;
        network_args::accepted_lists_hold_every_argument(rpc, ConnectionType::RPC);
        network_args::accepted_lists_hold_every_argument(ipc, ConnectionType::IPC);
        network_args::accepted_lists_hold_every_argument(ws, ConnectionType::WS);
        let none = NetworksModel::empty();
        let one = none.extended(r);
        let two = one.extended(i);
        let all = two.extended(w);
        table_laws::extending_adds_networks(none, r, name);
        table_laws::extending_adds_networks(one, i, name);
        table_laws::extending_adds_networks(two, w, name);
        table_laws::sorting_reorders_nodes_alone(all, name);
        table_laws::everything_is_new_to_nothing(r.names);
        assert(one.names =~= r.names);
        let known = r.names + i.names.filter(|n: Seq<char>| !r.names.contains(n));
        assert(two.names == known);
    }
}

} // verus!
