//! The Ethereum nodes that the command line names.

use crate::capabilities::NodeCapabilities;
use crate::network_laws;
use crate::networks;
use crate::networks::{
    AdapterModel, ConnectionType, EndpointModel, EthereumEndpoint, EthereumNetworks, NetworksModel,
};
use crate::text;
use vstd::prelude::*;
use vstd::string::*;

verus! {

/// Why an argument does not name an Ethereum node.
#[derive(Clone, Copy, Debug, PartialEq, Eq, Structural)]
pub enum NetworkArgError {
    /// The argument is a URL without a network name before it.
    BareUrl,
    /// The argument lacks one of the two colons that set off its parts.
    MissingPart,
    /// Nothing stands before the first colon.
    EmptyName,
}

/// One argument: the network, and the node that serves it.
#[derive(Debug)]
pub struct NetworkArg {
    pub name: String,
    pub capabilities: NodeCapabilities,
    pub endpoint: EthereumEndpoint,
}

impl NetworkArg {
    /// The network's name and the node.
    pub open spec fn parts(self) -> (Seq<char>, AdapterModel) {
        (
            self.name@,
            AdapterModel { capabilities: self.capabilities, endpoint: self.endpoint@ },
        )
    }
}

impl NetworkArgError {
    /// What the operator is told.
    pub open spec fn explanation(self) -> Seq<char> {
        match self {
            NetworkArgError::BareUrl =>
                "Is your Ethereum node string missing a network name? Try 'mainnet:' + the Ethereum node URL."@,
            NetworkArgError::MissingPart =>
                "A network name must be provided alongside the Ethereum node location. Try e.g. 'mainnet:URL'."@,
            NetworkArgError::EmptyName => "Ethereum network name cannot be an empty string"@,
        }
    }

    /// What the operator is told.
    pub fn message(&self) -> (message: String)
        ensures
            message@ == self.explanation(),
    {
        match self {
            NetworkArgError::BareUrl =>
                "Is your Ethereum node string missing a network name? Try 'mainnet:' + the Ethereum node URL.".to_string(),
            NetworkArgError::MissingPart =>
                "A network name must be provided alongside the Ethereum node location. Try e.g. 'mainnet:URL'.".to_string(),
            NetworkArgError::EmptyName =>
                "Ethereum network name cannot be an empty string".to_string(),
        }
    }
}

/// Whether an argument begins like a URL that no network name precedes.
pub open spec fn is_bare_url(arg: Seq<char>) -> bool {
    ||| "wss://"@.is_prefix_of(arg)
    ||| "http://"@.is_prefix_of(arg)
    ||| "https://"@.is_prefix_of(arg)
}

/// Whether the part after the name is the scheme of a URL, so that no capabilities are given.
pub open spec fn is_url_scheme(part: Seq<char>) -> bool {
    part == "http"@ || part == "https"@ || part == "ws"@ || part == "wss"@
}

/// What an argument says. It reads `NAME:CAPABILITIES:URL`; a node has every capability where the
/// argument reads `NAME::URL`, or `NAME:URL` with an `http`, `https`, `ws` or `wss` URL.
pub open spec fn network_of(arg: Seq<char>, connection_type: ConnectionType) -> Result<
    (Seq<char>, AdapterModel),
    NetworkArgError,
> {
    let i = text::first_index(arg, ':');
    let name = arg.take(i);
    let rest = arg.skip(i + 1);
    let j = text::first_index(rest, ':');
    let part = rest.take(j);
    if is_bare_url(arg) {
        Err(NetworkArgError::BareUrl)
    } else if i == arg.len() {
        Err(NetworkArgError::MissingPart)
    } else if name.len() == 0 {
        Err(NetworkArgError::EmptyName)
    } else if j == rest.len() {
        Err(NetworkArgError::MissingPart)
    } else if is_url_scheme(part) {
        Ok((name, node(NodeCapabilities::every(), connection_type, rest)))
    } else if part.len() == 0 {
        Ok((name, node(NodeCapabilities::every(), connection_type, rest.skip(j + 1))))
    } else {
        Ok((name, node(NodeCapabilities::named_in(part), connection_type, rest.skip(j + 1))))
    }
}

/// A node with these properties.
pub open spec fn node(
    capabilities: NodeCapabilities,
    connection_type: ConnectionType,
    url: Seq<char>,
) -> AdapterModel {
    AdapterModel { capabilities, endpoint: EndpointModel { connection_type, url } }
}

/// The networks that a list of arguments describes, or what is wrong with the first argument
/// that is wrong.
pub open spec fn networks_of(args: Seq<Seq<char>>, connection_type: ConnectionType) -> Result<
    NetworksModel,
    NetworkArgError,
>
    decreases args.len(),
{
    if args.len() == 0 {
        Ok(NetworksModel::empty())
    } else {
        match networks_of(args.drop_last(), connection_type) {
            Err(error) => Err(error),
            Ok(table) => match network_of(args.last(), connection_type) {
                Err(error) => Err(error),
                Ok((name, adapter)) => Ok(table.inserted(name, adapter)),
            },
        }
    }
}

/// The networks of all three lists of arguments: those reached over RPC first, then over IPC,
/// then over web sockets. A later list replaces the nodes that an earlier one gave a network.
pub open spec fn all_networks(
    rpc: Seq<Seq<char>>,
    ipc: Seq<Seq<char>>,
    ws: Seq<Seq<char>>,
) -> Result<NetworksModel, NetworkArgError> {
    match networks_of(rpc, ConnectionType::RPC) {
        Err(error) => Err(error),
        Ok(over_rpc) => match networks_of(ipc, ConnectionType::IPC) {
            Err(error) => Err(error),
            Ok(over_ipc) => match networks_of(ws, ConnectionType::WS) {
                Err(error) => Err(error),
                Ok(over_ws) => Ok(
                    NetworksModel::empty().extended(over_rpc).extended(over_ipc).extended(
                        over_ws,
                    ).sorted(),
                ),
            },
        },
    }
}

/// Whether `part` is the scheme of a URL.
fn names_url_scheme(part: &str) -> (scheme: bool)
    ensures
        scheme == is_url_scheme(part@),
{
    text::same(part, "http") || text::same(part, "https") || text::same(part, "ws") || text::same(
        part,
        "wss",
    )
}

/// Reads one argument.
pub fn parse_network(arg: &str, connection_type: ConnectionType) -> (parsed: Result<
    NetworkArg,
    NetworkArgError,
>)
    ensures
        match parsed {
            Ok(network) => network_of(arg@, connection_type) == Ok::<_, NetworkArgError>(
                network.parts(),
            ),
            Err(error) => network_of(arg@, connection_type) == Err::<
                (Seq<char>, AdapterModel),
                _,
            >(error),
        },
        parsed matches Err(NetworkArgError::BareUrl) <==> "http://"@.is_prefix_of(arg@)
            || "https://"@.is_prefix_of(arg@) || "wss://"@.is_prefix_of(arg@),
        parsed matches Ok(network) ==> network.endpoint.connection_type == connection_type,
{
    if text::starts_with(arg, "wss://") || text::starts_with(arg, "http://") || text::starts_with(
        arg,
        "https://",
    ) {
        return Err(NetworkArgError::BareUrl);
    }
    let n: usize = arg.unicode_len();
    let split_at: usize = match text::find(arg, ':') {
        Some(i) => i,
        None => {
            return Err(NetworkArgError::MissingPart);
        },
    };
    let name = arg.substring_char(0, split_at);
    let rest = arg.substring_char(split_at + 1, n);
    assert(rest@ =~= arg@.skip(split_at + 1));
    if split_at == 0 {
        return Err(NetworkArgError::EmptyName);
    }
    let url_split_at: usize = match text::find(rest, ':') {
        Some(j) => j,
        None => {
            return Err(NetworkArgError::MissingPart);
        },
    };
    let part = rest.substring_char(0, url_split_at);
    let after = rest.substring_char(url_split_at + 1, n - split_at - 1);
    assert(name@ =~= arg@.take(split_at as int));
    assert(part@ =~= rest@.take(url_split_at as int));
    assert(after@ =~= rest@.skip(url_split_at + 1));
    let (url, capabilities) = if names_url_scheme(part) {
        (rest, NodeCapabilities::all())
    } else if url_split_at == 0 {
        (after, NodeCapabilities::all())
    } else {
        (after, NodeCapabilities::parse(part))
    };
    let endpoint = EthereumEndpoint { connection_type, url: url.to_string() };
    Ok(NetworkArg { name: name.to_string(), capabilities, endpoint })
}

/// Reads a list of arguments into a table of networks.
pub fn parse_ethereum_networks(args: &Vec<String>, connection_type: ConnectionType) -> (parsed:
    Result<EthereumNetworks, NetworkArgError>)
    ensures
        match parsed {
            Ok(table) => networks_of(text::views(args@), connection_type) == Ok::<
                _,
                NetworkArgError,
            >(table@),
            Err(error) => networks_of(text::views(args@), connection_type) == Err::<
                NetworksModel,
                _,
            >(error),
        },
{
    let ghost all = text::views(args@);
    let mut table = EthereumNetworks::new();
    let mut i: usize = 0;
    assert(all.take(0) =~= Seq::<Seq<char>>::empty());
    while i < args.len()
        invariant
            i <= args@.len(),
            all == text::views(args@),
            networks_of(all.take(i as int), connection_type) == Ok::<_, NetworkArgError>(table@),
        decreases args.len() - i,
    {
        assert(all.take(i + 1).drop_last() =~= all.take(i as int));
        assert(all.take(i + 1).last() == args@[i as int]@);
        match parse_network(args[i].as_str(), connection_type) {
            Ok(network) => {
                table.insert(network.name, network.capabilities, network.endpoint);
            },
            Err(error) => {
                proof {
                    first_error_decides(all, connection_type, i + 1);
                }
                return Err(error);
            },
        }
        i = i + 1;
    }
    assert(all.take(i as int) =~= all);
    Ok(table)
}

/// Reads the arguments for all three kinds of connection into one table, the nodes of each
/// network with the cheapest first.
pub fn connect_networks(rpc: &Vec<String>, ipc: &Vec<String>, ws: &Vec<String>) -> (parsed: Result<
    EthereumNetworks,
    NetworkArgError,
>)
    ensures
        match parsed {
            Ok(table) => all_networks(text::views(rpc@), text::views(ipc@), text::views(ws@))
                == Ok::<_, NetworkArgError>(table@),
            Err(error) => all_networks(text::views(rpc@), text::views(ipc@), text::views(ws@))
                == Err::<NetworksModel, _>(error),
        },
{
    let mut table = EthereumNetworks::new();
    let over_rpc = match parse_ethereum_networks(rpc, ConnectionType::RPC) {
        Ok(networks) => networks,
        Err(error) => {
            return Err(error);
        },
    };
    table.extend(over_rpc);
    let over_ipc = match parse_ethereum_networks(ipc, ConnectionType::IPC) {
        Ok(networks) => networks,
        Err(error) => {
            return Err(error);
        },
    };
    table.extend(over_ipc);
    let over_ws = match parse_ethereum_networks(ws, ConnectionType::WS) {
        Ok(networks) => networks,
        Err(error) => {
            return Err(error);
        },
    };
    table.extend(over_ws);
    table.sort();
    Ok(table)
}

/// Once the first `n` arguments are refused, so is the whole list, for the same reason: what
/// comes after the first argument that is wrong does not matter.
pub proof fn first_error_decides(args: Seq<Seq<char>>, connection_type: ConnectionType, n: int)
    requires
        0 <= n <= args.len(),
        networks_of(args.take(n), connection_type) is Err,
    ensures
        networks_of(args, connection_type) == networks_of(args.take(n), connection_type),
    decreases args.len() - n,
{
    if n == args.len() {
        assert(args.take(n) =~= args);
    } else {
        assert(args.take(n + 1).drop_last() =~= args.take(n));
        first_error_decides(args, connection_type, n + 1);
    }
}

/// A list is accepted if and only if each of its arguments is; and then every network of the
/// table comes from the arguments, in their order.
pub proof fn accepted_lists_hold_every_argument(
    args: Seq<Seq<char>>,
    connection_type: ConnectionType,
)
    ensures
        networks_of(args, connection_type) is Ok <==> forall|i: int|
            0 <= i < args.len() ==> network_of(#[trigger] args[i], connection_type) is Ok,
        networks_of(args, connection_type) matches Ok(table) ==> table.valid() && (forall|name: Seq<char>|
            #[trigger]
            table.adapters_of(name) == nodes_of(args, connection_type, name)),
    decreases args.len(),
{
    if args.len() > 0 {
        let rest = args.drop_last();
        accepted_lists_hold_every_argument(rest, connection_type);
        assert(forall|i: int| 0 <= i < rest.len() ==> #[trigger] rest[i] == args[i]);
        assert(args[args.len() - 1] == args.last());
        if networks_of(args, connection_type) is Ok {
            let before = networks_of(rest, connection_type)->Ok_0;
            let (name, adapter) = network_of(args.last(), connection_type)->Ok_0;
            network_laws::operations_keep_tables_valid(before, before, name, adapter);
            assert forall|i: int| 0 <= i < args.len() implies network_of(
                #[trigger] args[i],
                connection_type,
            ) is Ok by {
                if i < rest.len() {
                    assert(rest[i] == args[i]);
                }
            }
            let table = networks_of(args, connection_type)->Ok_0;
            assert forall|n: Seq<char>| #[trigger] table.adapters_of(n) == nodes_of(
                args,
                connection_type,
                n,
            ) by {
                assert(before.adapters_of(n) == nodes_of(rest, connection_type, n));
            }
        } else {
            if forall|i: int|
                0 <= i < args.len() ==> network_of(#[trigger] args[i], connection_type) is Ok {
                assert(forall|i: int|
                    0 <= i < rest.len() ==> network_of(#[trigger] rest[i], connection_type) is Ok);
            }
        }
    } else {
        assert forall|n: Seq<char>| #[trigger] NetworksModel::empty().adapters_of(n) == nodes_of(
            args,
            connection_type,
            n,
        ) by {}
    }
}

/// A table that was read from the command line lists each network once, each with a node; and a
/// network has the nodes that the last kind of connection to name it gives it, with the cheapest
/// first and otherwise in the order of the arguments.
pub proof fn connected_tables_hold_the_last_kind(
    rpc: Seq<Seq<char>>,
    ipc: Seq<Seq<char>>,
    ws: Seq<Seq<char>>,
    name: Seq<char>,
)
    ensures
        all_networks(rpc, ipc, ws) matches Ok(table) ==> table.valid() && table.adapters_of(name)
            == networks::by_cost(
            if nodes_of(ws, ConnectionType::WS, name).len() > 0 {
                nodes_of(ws, ConnectionType::WS, name)
            } else if nodes_of(ipc, ConnectionType::IPC, name).len() > 0 {
                nodes_of(ipc, ConnectionType::IPC, name)
            } else {
                nodes_of(rpc, ConnectionType::RPC, name)
            },
        ),
        all_networks(rpc, ipc, ws) is Ok <==> networks_of(rpc, ConnectionType::RPC) is Ok
            && networks_of(ipc, ConnectionType::IPC) is Ok && networks_of(
            ws,
            ConnectionType::WS,
        ) is Ok,
{
    if all_networks(rpc, ipc, ws) is Ok {
        let r = networks_of(rpc, ConnectionType::RPC)->Ok_0;
        let i = networks_of(ipc, ConnectionType::IPC)->Ok_0;
        let w = networks_of(ws, ConnectionType::WS)->Ok_0;
        accepted_lists_hold_every_argument(rpc, ConnectionType::RPC);
        accepted_lists_hold_every_argument(ipc, ConnectionType::IPC);
        accepted_lists_hold_every_argument(ws, ConnectionType::WS);
        assert(r.adapters_of(name) == nodes_of(rpc, ConnectionType::RPC, name));
        assert(i.adapters_of(name) == nodes_of(ipc, ConnectionType::IPC, name));
        assert(w.adapters_of(name) == nodes_of(ws, ConnectionType::WS, name));
        lemma_three_tables(r, i, w, name);
    }
}

/// What becomes of three tables that are put together and sorted.
proof fn lemma_three_tables(r: NetworksModel, i: NetworksModel, w: NetworksModel, name: Seq<char>)
    requires
        r.valid(),
        i.valid(),
        w.valid(),
    ensures
        NetworksModel::empty().extended(r).extended(i).extended(w).sorted().valid(),
        NetworksModel::empty().extended(r).extended(i).extended(w).sorted().adapters_of(name)
            == networks::by_cost(
            if w.adapters_of(name).len() > 0 {
                w.adapters_of(name)
            } else if i.adapters_of(name).len() > 0 {
                i.adapters_of(name)
            } else {
                r.adapters_of(name)
            },
        ),
{
    let none = NetworksModel::empty();
    let one = none.extended(r);
    let two = one.extended(i);
    let all = two.extended(w);
    lemma_extended(none, r, name);
    lemma_extended(one, i, name);
    lemma_extended(two, w, name);
    lemma_sorted(all, name);
}

/// What becomes of a network in a table that is extended.
proof fn lemma_extended(a: NetworksModel, b: NetworksModel, name: Seq<char>)
    requires
        a.valid(),
        b.valid(),
    ensures
        a.extended(b).valid(),
        a.extended(b).adapters_of(name) == (if b.adapters_of(name).len() > 0 {
            b.adapters_of(name)
        } else {
            a.adapters_of(name)
        }),
{
    network_laws::extending_keeps_tables_valid(a, b);
    network_laws::extending_prefers_the_newcomer(a, b, name);
}

/// What becomes of a network in a table that is sorted.
#[verifier::spinoff_prover]
proof fn lemma_sorted(table: NetworksModel, name: Seq<char>)
    requires
        table.valid(),
    ensures
        table.sorted().valid(),
        table.sorted().adapters_of(name) == networks::by_cost(table.adapters_of(name)),
{
    network_laws::sorting_keeps_tables_valid(table);
    if !table.adapters.contains_key(name) {
        lemma_nothing_to_sort();
        assert(!table.sorted().adapters.contains_key(name));
    }
}

/// Sorting no nodes gives none.
proof fn lemma_nothing_to_sort()
    ensures
        networks::by_cost(Seq::empty()) == Seq::<AdapterModel>::empty(),
{
    networks::sorting_keeps_the_nodes(Seq::empty());
    assert(networks::by_cost(Seq::empty()) =~= Seq::empty());
}

/// The nodes that the arguments give a network, in the order of the arguments.
pub open spec fn nodes_of(
    args: Seq<Seq<char>>,
    connection_type: ConnectionType,
    name: Seq<char>,
) -> Seq<AdapterModel>
    decreases args.len(),
{
    if args.len() == 0 {
        Seq::empty()
    } else {
        let before = nodes_of(args.drop_last(), connection_type, name);
        match network_of(args.last(), connection_type) {
            Ok((n, adapter)) => if n == name {
                before.push(adapter)
            } else {
                before
            },
            Err(_) => before,
        }
    }
}

/// `NAME:CAPABILITIES:URL` names a node of the network `NAME` that has the listed capabilities
/// and is found at `URL`.
pub proof fn full_form(
    name: Seq<char>,
    capabilities: Seq<char>,
    url: Seq<char>,
    connection_type: ConnectionType,
)
    requires
        name.len() > 0,
        !name.contains(':'),
        capabilities.len() > 0,
        !capabilities.contains(':'),
        !is_url_scheme(capabilities),
        !is_bare_url(name + seq![':'] + capabilities + seq![':'] + url),
    ensures
        network_of(name + seq![':'] + capabilities + seq![':'] + url, connection_type) == Ok::<
            _,
            NetworkArgError,
        >((name, node(NodeCapabilities::named_in(capabilities), connection_type, url))),
{
    let arg = name + seq![':'] + capabilities + seq![':'] + url;
    lemma_parts(arg, name, capabilities, url);
}

/// `NAME::URL` names a node with every capability.
pub proof fn form_without_capabilities(
    name: Seq<char>,
    url: Seq<char>,
    connection_type: ConnectionType,
)
    requires
        name.len() > 0,
        !name.contains(':'),
    ensures
        network_of(name + seq![':', ':'] + url, connection_type) == Ok::<_, NetworkArgError>(
            (name, node(NodeCapabilities::every(), connection_type, url)),
        ),
{
    let arg = name + seq![':', ':'] + url;
    reveal_strlit("http");
    reveal_strlit("https");
    reveal_strlit("ws");
    reveal_strlit("wss");
    assert(arg =~= name + seq![':'] + Seq::<char>::empty() + seq![':'] + url);
    lemma_parts(arg, name, Seq::empty(), url);
    assert(arg.skip((name.len() + 1) as int)[0] == ':');
    lemma_not_bare(arg, name);
}

/// `NAME:URL` names a node with every capability where the URL is an `http`, `https`, `ws` or
/// `wss` one.
pub proof fn form_with_url_alone(
    name: Seq<char>,
    scheme: Seq<char>,
    location: Seq<char>,
    connection_type: ConnectionType,
)
    requires
        name.len() > 0,
        !name.contains(':'),
        is_url_scheme(scheme),
    ensures
        network_of(name + seq![':'] + scheme + seq![':'] + location, connection_type) == Ok::<
            _,
            NetworkArgError,
        >(
            (
                name,
                node(
                    NodeCapabilities::every(),
                    connection_type,
                    scheme + seq![':'] + location,
                ),
            ),
        ),
{
    let arg = name + seq![':'] + scheme + seq![':'] + location;
    reveal_strlit("http");
    reveal_strlit("https");
    reveal_strlit("ws");
    reveal_strlit("wss");
    assert(!scheme.contains(':'));
    lemma_parts(arg, name, scheme, location);
    assert(arg.skip((name.len() + 1) as int) =~= scheme + seq![':'] + location);
    assert(arg.skip((name.len() + 1) as int)[0] == scheme[0]);
    lemma_not_bare(arg, name);
}

/// An argument whose first colon is not followed by a slash is no bare URL.
proof fn lemma_not_bare(arg: Seq<char>, name: Seq<char>)
    requires
        text::first_index(arg, ':') == name.len(),
        name.len() + 1 < arg.len(),
        arg.skip((name.len() + 1) as int)[0] != '/',
    ensures
        !is_bare_url(arg),
{
    reveal_strlit("wss://");
    reveal_strlit("http://");
    reveal_strlit("https://");
    text::lemma_first_index(arg, ':');
    if "wss://"@.is_prefix_of(arg) {
        assert(forall|j: int| 0 <= j < 6 ==> arg[j] == "wss://"@[j]);
        text::lemma_first_index_unique(arg, ':', 3);
        assert(arg[4] == '/');
    }
    if "http://"@.is_prefix_of(arg) {
        assert(forall|j: int| 0 <= j < 7 ==> arg[j] == "http://"@[j]);
        text::lemma_first_index_unique(arg, ':', 4);
        assert(arg[5] == '/');
    }
    if "https://"@.is_prefix_of(arg) {
        assert(forall|j: int| 0 <= j < 8 ==> arg[j] == "https://"@[j]);
        text::lemma_first_index_unique(arg, ':', 5);
        assert(arg[6] == '/');
    }
}

/// Where the parts of an argument begin and end.
proof fn lemma_parts(arg: Seq<char>, name: Seq<char>, part: Seq<char>, url: Seq<char>)
    requires
        arg == name + seq![':'] + part + seq![':'] + url,
        !name.contains(':'),
        !part.contains(':'),
    ensures
        text::first_index(arg, ':') == name.len(),
        arg.take(name.len() as int) == name,
        text::first_index(arg.skip((name.len() + 1) as int), ':') == part.len(),
        part.len() < arg.skip((name.len() + 1) as int).len(),
        arg.skip((name.len() + 1) as int).take(part.len() as int) == part,
        arg.skip((name.len() + 1) as int).skip((part.len() + 1) as int) == url,
        name.len() < arg.len(),
{
    let rest = arg.skip((name.len() + 1) as int);
    assert forall|j: int| 0 <= j < name.len() implies arg[j] != ':' by {
        assert(arg[j] == name[j]);
    }
    assert(arg[name.len() as int] == ':');
    text::lemma_first_index_unique(arg, ':', name.len() as int);
    assert(arg.take(name.len() as int) =~= name);
    assert forall|j: int| 0 <= j < part.len() implies rest[j] != ':' by {
        assert(rest[j] == part[j]);
    }
    assert(rest[part.len() as int] == ':');
    text::lemma_first_index_unique(rest, ':', part.len() as int);
    assert(rest.take(part.len() as int) =~= part);
    assert(rest.skip((part.len() + 1) as int) =~= url);
}

} // verus!
