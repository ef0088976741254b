//! The Ethereum networks a node is connected to, and the nodes that serve each of them.

use crate::capabilities::NodeCapabilities;
use crate::text;
use vstd::prelude::*;

verus! {

/// How an Ethereum node is reached.
#[derive(Clone, Copy, Debug, PartialEq, Eq, Structural)]
pub enum ConnectionType {
    IPC,
    RPC,
    WS,
}

/// Where an Ethereum node is, and how it is reached.
#[derive(Debug)]
pub struct EthereumEndpoint {
    pub connection_type: ConnectionType,
    pub url: String,
}

/// An Ethereum node and what it can be asked for.
#[derive(Debug)]
pub struct EthereumNetworkAdapter {
    pub capabilities: NodeCapabilities,
    pub endpoint: EthereumEndpoint,
}

/// The Ethereum nodes that serve one network.
#[derive(Debug)]
pub struct EthereumNetworkAdapters {
    pub name: String,
    pub adapters: Vec<EthereumNetworkAdapter>,
}

/// The Ethereum nodes that serve each network. A network has one entry, and an entry has at
/// least one node.
#[derive(Debug)]
pub struct EthereumNetworks {
    networks: Vec<EthereumNetworkAdapters>,
}

/// Why no Ethereum node of a network can be asked.
#[derive(Clone, Copy, Debug, PartialEq, Eq, Structural)]
pub enum AdapterError {
    /// No network has the name.
    UnknownNetwork,
    /// The network is known, but none of its nodes has the capabilities.
    MissingCapabilities,
}

/// The mathematical value of an `EthereumEndpoint`.
#[verifier::ext_equal]
pub struct EndpointModel {
    pub connection_type: ConnectionType,
    pub url: Seq<char>,
}

/// The mathematical value of an `EthereumNetworkAdapter`.
#[verifier::ext_equal]
pub struct AdapterModel {
    pub capabilities: NodeCapabilities,
    pub endpoint: EndpointModel,
}

/// The mathematical value of an `EthereumNetworks`: the names in the order in which they first
/// came in, and the nodes of each network in order.
#[verifier::ext_equal]
pub struct NetworksModel {
    pub names: Seq<Seq<char>>,
    pub adapters: Map<Seq<char>, Seq<AdapterModel>>,
}

impl View for EthereumEndpoint {
    type V = EndpointModel;

    open spec fn view(&self) -> EndpointModel {
        EndpointModel { connection_type: self.connection_type, url: self.url@ }
    }
}

impl View for EthereumNetworkAdapter {
    type V = AdapterModel;

    open spec fn view(&self) -> AdapterModel {
        AdapterModel { capabilities: self.capabilities, endpoint: self.endpoint@ }
    }
}

impl View for EthereumNetworkAdapters {
    type V = Seq<AdapterModel>;

    open spec fn view(&self) -> Seq<AdapterModel> {
        adapter_models(self.adapters@)
    }
}

impl View for EthereumNetworks {
    type V = NetworksModel;

    closed spec fn view(&self) -> NetworksModel {
        model(self.networks@)
    }
}

/// The mathematical values of a list of nodes.
pub open spec fn adapter_models(adapters: Seq<EthereumNetworkAdapter>) -> Seq<AdapterModel> {
    adapters.map_values(|a: EthereumNetworkAdapter| a@)
}

/// The first of `adapters` that has the capabilities `required`.
pub open spec fn first_meeting(
    adapters: Seq<AdapterModel>,
    required: NodeCapabilities,
) -> Option<AdapterModel>
    decreases adapters.len(),
{
    if adapters.len() == 0 {
        None
    } else if adapters[0].capabilities.covers(required) {
        Some(adapters[0])
    } else {
        first_meeting(adapters.drop_first(), required)
    }
}

/// The nodes of `adapters` with exactly `cost` capabilities, in their order.
pub open spec fn costing(adapters: Seq<AdapterModel>, cost: nat) -> Seq<AdapterModel> {
    adapters.filter(|a: AdapterModel| a.capabilities.cost() == cost)
}

/// `adapters` with the cheapest first; nodes that cost the same keep their order.
pub open spec fn by_cost(adapters: Seq<AdapterModel>) -> Seq<AdapterModel> {
    costing(adapters, 0) + costing(adapters, 1) + costing(adapters, 2)
}

/// `names`, followed by those of `more` that are not there yet.
pub open spec fn merged_names(names: Seq<Seq<char>>, more: Seq<Seq<char>>) -> Seq<Seq<char>>
    decreases more.len(),
{
    if more.len() == 0 {
        names
    } else {
        with_name(merged_names(names, more.drop_last()), more.last())
    }
}

/// `names` with `name` at the end, unless it is there already.
pub open spec fn with_name(names: Seq<Seq<char>>, name: Seq<char>) -> Seq<Seq<char>> {
    if names.contains(name) {
        names
    } else {
        names.push(name)
    }
}

impl NetworksModel {
    /// No network.
    pub open spec fn empty() -> NetworksModel {
        NetworksModel { names: Seq::empty(), adapters: Map::empty() }
    }

    /// Every name is listed once, exactly the listed networks have nodes, and each has at least
    /// one.
    pub open spec fn valid(self) -> bool {
        &&& self.names.no_duplicates()
        &&& forall|n: Seq<char>| #[trigger]
            self.adapters.contains_key(n) <==> self.names.contains(n)
        &&& forall|n: Seq<char>| #[trigger]
            self.adapters.contains_key(n) ==> self.adapters[n].len() > 0
    }

    /// The nodes of a network; none where the network is not known.
    pub open spec fn adapters_of(self, name: Seq<char>) -> Seq<AdapterModel> {
        if self.adapters.contains_key(name) {
            self.adapters[name]
        } else {
            Seq::empty()
        }
    }

    /// `adapters` in place of whatever nodes the network had.
    pub open spec fn put(self, name: Seq<char>, adapters: Seq<AdapterModel>) -> NetworksModel {
        NetworksModel {
            names: with_name(self.names, name),
            adapters: self.adapters.insert(name, adapters),
        }
    }

    /// One more node, after the others of its network.
    pub open spec fn inserted(self, name: Seq<char>, adapter: AdapterModel) -> NetworksModel {
        self.put(name, self.adapters_of(name).push(adapter))
    }

    /// The networks of both; where both know a network, its nodes are those of `other`.
    pub open spec fn extended(self, other: NetworksModel) -> NetworksModel {
        NetworksModel {
            names: merged_names(self.names, other.names),
            adapters: self.adapters.union_prefer_right(other.adapters),
        }
    }

    /// The same networks, the nodes of each with the cheapest first.
    pub open spec fn sorted(self) -> NetworksModel {
        NetworksModel {
            names: self.names,
            adapters: self.adapters.map_values(|s: Seq<AdapterModel>| by_cost(s)),
        }
    }

    /// Every node with the name of its network, network by network.
    pub open spec fn flattened(self) -> Seq<(Seq<char>, AdapterModel)> {
        self.names.flat_map(
            |n: Seq<char>| self.adapters[n].map_values(|a: AdapterModel| (n, a)),
        )
    }
}

/// The names of a list of entries.
spec fn entry_names(entries: Seq<EthereumNetworkAdapters>) -> Seq<Seq<char>> {
    entries.map_values(|e: EthereumNetworkAdapters| e.name@)
}

/// The networks that a list of entries describes.
spec fn model(entries: Seq<EthereumNetworkAdapters>) -> NetworksModel {
    let names = entry_names(entries);
    NetworksModel {
        names,
        adapters: Map::new(
            |n: Seq<char>| names.contains(n),
            |n: Seq<char>| entries[names.index_of(n)]@,
        ),
    }
}

/// No two entries have the same name, and every entry has a node.
spec fn well_formed(entries: Seq<EthereumNetworkAdapters>) -> bool {
    &&& entry_names(entries).no_duplicates()
    &&& forall|i: int| 0 <= i < entries.len() ==> (#[trigger] entries[i]).adapters@.len() > 0
}

/// In a well-formed list the nodes of an entry are those of its network.
proof fn lemma_entry(entries: Seq<EthereumNetworkAdapters>, i: int)
    requires
        well_formed(entries),
        0 <= i < entries.len(),
    ensures
        model(entries).names[i] == entries[i].name@,
        model(entries).adapters.contains_key(entries[i].name@),
        model(entries).adapters[entries[i].name@] == entries[i]@,
{
    let names = entry_names(entries);
    assert(names[i] == entries[i].name@);
    assert(names.contains(names[i]));
    let k = names.index_of(names[i]);
    assert(0 <= k < names.len() && names[k] == names[i]);
    assert(k == i);
}

/// The networks of a well-formed list are valid.
proof fn lemma_model_valid(entries: Seq<EthereumNetworkAdapters>)
    requires
        well_formed(entries),
    ensures
        model(entries).valid(),
{
    let m = model(entries);
    assert forall|n: Seq<char>| #[trigger] m.adapters.contains_key(n) implies m.adapters[n].len()
        > 0 by {
        let k = m.names.index_of(n);
        assert(0 <= k < m.names.len() && m.names[k] == n);
        lemma_entry(entries, k);
        assert(entries[k].adapters@.len() > 0);
    }
}

/// Changing the nodes of one entry changes the nodes of its network alone.
proof fn lemma_update(
    entries: Seq<EthereumNetworkAdapters>,
    i: int,
    entry: EthereumNetworkAdapters,
)
    requires
        well_formed(entries),
        0 <= i < entries.len(),
        entry.name@ == entries[i].name@,
        entry.adapters@.len() > 0,
    ensures
        well_formed(entries.update(i, entry)),
        model(entries.update(i, entry)) == model(entries).put(entry.name@, entry@),
{
    let changed = entries.update(i, entry);
    assert(entry_names(changed) =~= entry_names(entries));
    assert(well_formed(changed));
    let a = model(changed);
    let b = model(entries).put(entry.name@, entry@);
    lemma_entry(entries, i);
    assert(entry_names(entries)[i] == entry.name@);
    assert(entry_names(entries).contains(entry.name@));
    assert(a.names =~= b.names);
    assert(a.adapters.dom() =~= b.adapters.dom());
    assert forall|n: Seq<char>| #[trigger] a.adapters.contains_key(n) implies a.adapters[n]
        == b.adapters[n] by {
        let k = a.names.index_of(n);
        assert(0 <= k < a.names.len() && a.names[k] == n);
        lemma_entry(changed, k);
        lemma_entry(entries, k);
        if n == entry.name@ {
            assert(k == i);
        }
    }
    assert(a.adapters =~= b.adapters);
}

/// A new entry adds its network at the end.
proof fn lemma_push(entries: Seq<EthereumNetworkAdapters>, entry: EthereumNetworkAdapters)
    requires
        well_formed(entries),
        !entry_names(entries).contains(entry.name@),
        entry.adapters@.len() > 0,
    ensures
        well_formed(entries.push(entry)),
        model(entries.push(entry)) == model(entries).put(entry.name@, entry@),
{
    let grown = entries.push(entry);
    assert(entry_names(grown) =~= entry_names(entries).push(entry.name@));
    assert(well_formed(grown));
    let a = model(grown);
    let b = model(entries).put(entry.name@, entry@);
    assert(a.names =~= b.names);
    assert forall|n: Seq<char>| #[trigger] a.adapters.contains_key(n)
        <==> b.adapters.contains_key(n) by {
        if b.adapters.contains_key(n) {
            if n == entry.name@ {
                assert(a.names[entries.len() as int] == n);
            } else {
                let k = entry_names(entries).index_of(n);
                assert(a.names[k] == n);
            }
        }
    }
    assert(a.adapters.dom() =~= b.adapters.dom());
    assert forall|n: Seq<char>| #[trigger] a.adapters.contains_key(n) implies a.adapters[n]
        == b.adapters[n] by {
        let k = a.names.index_of(n);
        assert(0 <= k < a.names.len() && a.names[k] == n);
        lemma_entry(grown, k);
        if k < entries.len() {
            lemma_entry(entries, k);
            assert(entry_names(entries)[k] == n);
        }
    }
    assert(a.adapters =~= b.adapters);
}

impl EthereumNetworks {
    #[verifier::type_invariant]
    spec fn entries_well_formed(self) -> bool {
        well_formed(self.networks@)
    }

    /// No network.
    pub fn new() -> (networks: EthereumNetworks)
        ensures
            networks@ == NetworksModel::empty(),
            networks@.valid(),
    {
        let networks = EthereumNetworks { networks: Vec::new() };
        proof {
            lemma_model_valid(networks.networks@);
            assert(networks@.names =~= Seq::<Seq<char>>::empty());
            assert(networks@.adapters =~= Map::<Seq<char>, Seq<AdapterModel>>::empty());
        }
        networks
    }

    /// Where the entry of a network is.
    fn position(&self, name: &str) -> (index: Option<usize>)
        ensures
            match index {
                Some(i) => i < self.networks@.len() && self.networks@[i as int].name@ == name@,
                None => !entry_names(self.networks@).contains(name@),
            },
    {
        let mut i: usize = 0;
        while i < self.networks.len()
            invariant
                i <= self.networks.len(),
                forall|j: int| 0 <= j < i ==> entry_names(self.networks@)[j] != name@,
            decreases self.networks.len() - i,
        {
            if text::same(self.networks[i].name.as_str(), name) {
                return Some(i);
            }
            i = i + 1;
        }
        None
    }

    /// Puts an entry in place of the one that its network had.
    fn put(&mut self, entry: EthereumNetworkAdapters)
        requires
            entry.adapters@.len() > 0,
        ensures
            final(self)@ == old(self)@.put(entry.name@, entry@),
    {
        proof {
            use_type_invariant(&*self);
        }
        let found = self.position(entry.name.as_str());
        let mut entries: Vec<EthereumNetworkAdapters> = Vec::new();
        std::mem::swap(&mut entries, &mut self.networks);
        let ghost before = entries@;
        match found {
            Some(i) => {
                proof {
                    lemma_update(before, i as int, entry);
                }
                entries.set(i, entry);
            },
            None => {
                proof {
                    lemma_push(before, entry);
                }
                entries.push(entry);
            },
        }
        self.networks = entries;
    }

    /// Adds a node to a network, after the nodes that the network has.
    pub fn insert(
        &mut self,
        name: String,
        capabilities: NodeCapabilities,
        endpoint: EthereumEndpoint,
    )
        ensures
            final(self)@ == old(self)@.inserted(name@, AdapterModel { capabilities, endpoint: endpoint@ }),
            final(self)@.valid(),
    {
        proof {
            use_type_invariant(&*self);
        }
        let adapter = EthereumNetworkAdapter { capabilities, endpoint };
        let mut adapters: Vec<EthereumNetworkAdapter> = Vec::new();
        let ghost before = self@;
        match self.position(name.as_str()) {
            Some(i) => {
                proof {
                    lemma_entry(self.networks@, i as int);
                }
                adapters = copies(&self.networks[i].adapters);
            },
            None => {},
        }
        assert(adapter_models(adapters@) =~= before.adapters_of(name@));
        let ghost kept = adapters@;
        adapters.push(adapter);
        assert(adapter_models(adapters@) =~= adapter_models(kept).push(adapter@));
        self.put(EthereumNetworkAdapters { name, adapters });
        proof {
            use_type_invariant(&*self);
            lemma_model_valid(self.networks@);
        }
    }

    /// Takes over the networks of `other`; where both know a network, the nodes of `other`
    /// replace the ones here.
    pub fn extend(&mut self, other: EthereumNetworks)
        ensures
            final(self)@ == old(self)@.extended(other@),
            final(self)@.valid(),
    {
        proof {
            use_type_invariant(&other);
            lemma_model_valid(other.networks@);
        }
        let ghost before = self@;
        let ghost more = other@;
        let n: usize = other.networks.len();
        let mut i: usize = 0;
        assert(self@.adapters =~= before.adapters.union_prefer_right(partial(more, 0).adapters));
        assert(more.names.take(0) =~= Seq::<Seq<char>>::empty());
        while i < n
            invariant
                i <= n,
                n == other.networks@.len(),
                more == other@,
                well_formed(other.networks@),
                self@ == before.extended(partial(more, i as int)),
            decreases n - i,
        {
            let entry = &other.networks[i];
            proof {
                lemma_entry(other.networks@, i as int);
            }
            let copied = EthereumNetworkAdapters {
                name: entry.name.clone(),
                adapters: copies(&entry.adapters),
            };
            proof {
                assert(copied.adapters@.len() == adapter_models(copied.adapters@).len());
                assert(entry.adapters@.len() == adapter_models(entry.adapters@).len());
                lemma_extended_step(before, more, i as int);
            }
            self.put(copied);
            i = i + 1;
        }
        proof {
            assert(more.names.take(n as int) =~= more.names);
            assert(partial(more, n as int).adapters =~= more.adapters);
            use_type_invariant(&*self);
            lemma_model_valid(self.networks@);
        }
    }

    /// Puts the nodes of every network in order, the cheapest first.
    pub fn sort(&mut self)
        ensures
            final(self)@ == old(self)@.sorted(),
            final(self)@.valid(),
    {
        proof {
            use_type_invariant(&*self);
        }
        let ghost before = self.networks@;
        let mut entries: Vec<EthereumNetworkAdapters> = Vec::new();
        let mut i: usize = 0;
        while i < self.networks.len()
            invariant
                i <= self.networks@.len(),
                self.networks@ == before,
                well_formed(before),
                entries@.len() == i,
                forall|j: int|
                    0 <= j < i ==> (#[trigger] entries@[j]).name@ == before[j].name@
                        && entries@[j]@ == by_cost(before[j]@),
            decreases self.networks.len() - i,
        {
            let entry = &self.networks[i];
            entries.push(
                EthereumNetworkAdapters {
                    name: entry.name.clone(),
                    adapters: cheapest_first(&entry.adapters),
                },
            );
            i = i + 1;
        }
        proof {
            lemma_sorted(before, entries@);
            lemma_model_valid(entries@);
        }
        self.networks = entries;
    }

    /// The names of the networks, in the order in which they first came in.
    pub fn names(&self) -> (names: Vec<String>)
        ensures
            text::views(names@) == self@.names,
    {
        let mut names: Vec<String> = Vec::new();
        let mut i: usize = 0;
        while i < self.networks.len()
            invariant
                i <= self.networks@.len(),
                text::views(names@) =~= self@.names.take(i as int),
            decreases self.networks.len() - i,
        {
            let ghost before = names@;
            names.push(self.networks[i].name.clone());
            assert(text::views(names@) =~= text::views(before).push(self@.names[i as int]));
            i = i + 1;
        }
        names
    }

    /// The nodes of a network.
    pub fn get(&self, name: &str) -> (adapters: Option<&EthereumNetworkAdapters>)
        ensures
            match adapters {
                Some(found) => self@.adapters.contains_key(name@) && found@
                    == self@.adapters[name@] && found.name@ == name@,
                None => !self@.adapters.contains_key(name@),
            },
            self@.valid(),
    {
        proof {
            use_type_invariant(self);
            lemma_model_valid(self.networks@);
        }
        match self.position(name) {
            Some(i) => {
                proof {
                    lemma_entry(self.networks@, i as int);
                }
                Some(&self.networks[i])
            },
            None => None,
        }
    }

    /// The first node of a network that has the capabilities `required`.
    pub fn adapter_with_capabilities(
        &self,
        name: &str,
        required: &NodeCapabilities,
    ) -> (endpoint: Result<&EthereumEndpoint, AdapterError>)
        ensures
            match endpoint {
                Ok(found) => self@.adapters.contains_key(name@) && (first_meeting(
                    self@.adapters[name@],
                    *required,
                ) matches Some(a) && a.endpoint == found@),
                Err(AdapterError::UnknownNetwork) => !self@.adapters.contains_key(name@),
                Err(AdapterError::MissingCapabilities) => self@.adapters.contains_key(name@)
                    && first_meeting(self@.adapters[name@], *required) is None,
            },
            self@.valid(),
    {
        match self.get(name) {
            Some(adapters) => match adapters.cheapest_with(required) {
                Some(endpoint) => Ok(endpoint),
                None => Err(AdapterError::MissingCapabilities),
            },
            None => Err(AdapterError::UnknownNetwork),
        }
    }

    /// Every node with the name of its network, network by network.
    pub fn flatten(&self) -> (all: Vec<(String, NodeCapabilities, EthereumEndpoint)>)
        ensures
            flat_models(all@) == self@.flattened(),
    {
        proof {
            use_type_invariant(self);
        }
        let ghost m = self@;
        let ghost f = |n: Seq<char>| m.adapters[n].map_values(|a: AdapterModel| (n, a));
        let mut all: Vec<(String, NodeCapabilities, EthereumEndpoint)> = Vec::new();
        let mut i: usize = 0;
        assert(m.names.take(0).flat_map(f) =~= Seq::<(Seq<char>, AdapterModel)>::empty());
        while i < self.networks.len()
            invariant
                i <= self.networks@.len(),
                m == self@,
                well_formed(self.networks@),
                f == (|n: Seq<char>| m.adapters[n].map_values(|a: AdapterModel| (n, a))),
                flat_models(all@) =~= m.names.take(i as int).flat_map(f),
            decreases self.networks.len() - i,
        {
            let entry = &self.networks[i];
            let ghost start = flat_models(all@);
            proof {
                lemma_entry(self.networks@, i as int);
            }
            let mut j: usize = 0;
            while j < entry.adapters.len()
                invariant
                    j <= entry.adapters@.len(),
                    flat_models(all@) =~= start + f(entry.name@).take(j as int),
                    f(entry.name@) == entry@.map_values(|a: AdapterModel| (entry.name@, a)),
                decreases entry.adapters.len() - j,
            {
                let adapter = &entry.adapters[j];
                let ghost before = all@;
                all.push((entry.name.clone(), adapter.capabilities, adapter.endpoint.copy()));
                assert(flat_models(all@) =~= flat_models(before).push((entry.name@, adapter@)));
                assert(f(entry.name@).take(j + 1) =~= f(entry.name@).take(j as int).push(
                    (entry.name@, adapter@),
                ));
                j = j + 1;
            }
            proof {
                assert(f(entry.name@).take(j as int) =~= f(entry.name@));
                m.names.lemma_flat_map_take_append(f, i as int);
            }
            i = i + 1;
        }
        assert(m.names.take(i as int) =~= m.names);
        all
    }

    /// The cheapest node of every network, network by network.
    pub fn cheapest(&self) -> (nodes: Vec<(String, EthereumEndpoint)>)
        ensures
            nodes@.len() == self@.names.len(),
            forall|i: int|
                0 <= i < nodes@.len() ==> (#[trigger] nodes@[i]).0@ == self@.names[i]
                    && self@.adapters.contains_key(nodes@[i].0@) && nodes@[i].1@
                    == self@.adapters[nodes@[i].0@][0].endpoint,
            self@.valid(),
    {
        proof {
            use_type_invariant(self);
            lemma_model_valid(self.networks@);
        }
        let mut nodes: Vec<(String, EthereumEndpoint)> = Vec::new();
        let mut i: usize = 0;
        while i < self.networks.len()
            invariant
                i <= self.networks@.len(),
                well_formed(self.networks@),
                nodes@.len() == i,
                forall|k: int|
                    0 <= k < i ==> (#[trigger] nodes@[k]).0@ == self@.names[k]
                        && self@.adapters.contains_key(nodes@[k].0@) && nodes@[k].1@
                        == self@.adapters[nodes@[k].0@][0].endpoint,
            decreases self.networks.len() - i,
        {
            let entry = &self.networks[i];
            proof {
                lemma_entry(self.networks@, i as int);
            }
            nodes.push((entry.name.clone(), entry.adapters[0].endpoint.copy()));
            i = i + 1;
        }
        nodes
    }
}

impl EthereumNetworkAdapters {
    /// The first node that has the capabilities `required`.
    pub fn cheapest_with(&self, required: &NodeCapabilities) -> (endpoint: Option<
        &EthereumEndpoint,
    >)
        ensures
            match endpoint {
                Some(found) => first_meeting(self@, *required) matches Some(a) && a.endpoint
                    == found@,
                None => first_meeting(self@, *required) is None,
            },
    {
        let mut i: usize = 0;
        assert(self@.skip(0) =~= self@);
        while i < self.adapters.len()
            invariant
                i <= self.adapters@.len(),
                first_meeting(self@, *required) == first_meeting(self@.skip(i as int), *required),
            decreases self.adapters.len() - i,
        {
            let adapter = &self.adapters[i];
            assert(self@.skip(i as int)[0] == adapter@);
            assert(self@.skip(i as int).drop_first() =~= self@.skip(i + 1));
            if adapter.capabilities.meets(required) {
                return Some(&adapter.endpoint);
            }
            i = i + 1;
        }
        None
    }
}

/// The mathematical values of a flattened table.
pub open spec fn flat_models(all: Seq<(String, NodeCapabilities, EthereumEndpoint)>) -> Seq<
    (Seq<char>, AdapterModel),
> {
    all.map_values(
        |e: (String, NodeCapabilities, EthereumEndpoint)|
            (e.0@, AdapterModel { capabilities: e.1, endpoint: e.2@ }),
    )
}

/// The first `n` networks of `m`.
spec fn partial(m: NetworksModel, n: int) -> NetworksModel {
    NetworksModel {
        names: m.names.take(n),
        adapters: Map::new(|k: Seq<char>| m.names.take(n).contains(k), |k: Seq<char>| m.adapters[k]),
    }
}

/// Extending by one network more is putting that network.
proof fn lemma_extended_step(before: NetworksModel, more: NetworksModel, i: int)
    requires
        more.valid(),
        0 <= i < more.names.len(),
    ensures
        before.extended(partial(more, i + 1)) == before.extended(partial(more, i)).put(
            more.names[i],
            more.adapters[more.names[i]],
        ),
{
    let a = before.extended(partial(more, i + 1));
    let b = before.extended(partial(more, i)).put(more.names[i], more.adapters[more.names[i]]);
    let shorter = more.names.take(i);
    let longer = more.names.take(i + 1);
    assert(longer.drop_last() =~= shorter);
    assert(longer =~= shorter.push(more.names[i]));
    assert(a.names =~= b.names);
    assert forall|n: Seq<char>| longer.contains(n) <==> (shorter.contains(n) || n
        == more.names[i]) by {
        if longer.contains(n) {
            let k = longer.index_of(n);
            assert(longer[k] == n);
            if k < i {
                assert(shorter[k] == n);
            }
        } else {
            if shorter.contains(n) {
                let k = shorter.index_of(n);
                assert(longer[k] == n);
            }
            if n == more.names[i] {
                assert(longer[i] == n);
            }
        }
    }
    assert(a.adapters =~= b.adapters);
}

/// Sorting every entry sorts the networks.
proof fn lemma_sorted(
    before: Seq<EthereumNetworkAdapters>,
    after: Seq<EthereumNetworkAdapters>,
)
    requires
        well_formed(before),
        after.len() == before.len(),
        forall|j: int|
            0 <= j < after.len() ==> (#[trigger] after[j]).name@ == before[j].name@ && after[j]@
                == by_cost(before[j]@),
    ensures
        well_formed(after),
        model(after) == model(before).sorted(),
{
    let a = model(after);
    let b = model(before).sorted();
    assert(entry_names(after) =~= entry_names(before));
    assert forall|j: int| 0 <= j < after.len() implies (#[trigger] after[j]).adapters@.len()
        > 0 by {
        sorting_keeps_the_nodes(before[j]@);
        assert(before[j].adapters@.len() > 0);
        assert(after[j]@.len() == after[j].adapters@.len());
    }
    assert(a.adapters.dom() =~= b.adapters.dom());
    assert forall|n: Seq<char>| #[trigger] a.adapters.contains_key(n) implies a.adapters[n]
        == b.adapters[n] by {
        let k = a.names.index_of(n);
        assert(0 <= k < a.names.len() && a.names[k] == n);
        lemma_entry(after, k);
        lemma_entry(before, k);
    }
    assert(a.adapters =~= b.adapters);
}

/// Sorting loses no node and makes up none.
pub proof fn sorting_keeps_the_nodes(adapters: Seq<AdapterModel>)
    ensures
        by_cost(adapters).len() == adapters.len(),
        by_cost(adapters).to_multiset() == adapters.to_multiset(),
    decreases adapters.len(),
{
    broadcast use vstd::seq_lib::group_to_multiset_ensures;

    let sorted = by_cost(adapters);
    reveal(Seq::filter);
    if adapters.len() == 0 {
        assert(sorted =~= adapters);
    } else {
        let rest = adapters.drop_last();
        let last = adapters.last();
        sorting_keeps_the_nodes(rest);
        assert(adapters =~= rest.push(last));
        let (c0, c1, c2) = (costing(rest, 0), costing(rest, 1), costing(rest, 2));
        vstd::seq_lib::lemma_multiset_commutative(c0 + c1, c2);
        vstd::seq_lib::lemma_multiset_commutative(c0, c1);
        if last.capabilities.cost() == 0 {
            vstd::seq_lib::lemma_multiset_commutative(c0.push(last) + c1, c2);
            vstd::seq_lib::lemma_multiset_commutative(c0.push(last), c1);
        } else if last.capabilities.cost() == 1 {
            vstd::seq_lib::lemma_multiset_commutative(c0 + c1.push(last), c2);
            vstd::seq_lib::lemma_multiset_commutative(c0, c1.push(last));
        } else {
            vstd::seq_lib::lemma_multiset_commutative(c0 + c1, c2.push(last));
        }
        assert(sorted.to_multiset() =~= adapters.to_multiset());
    }
}

/// The nodes in order, the cheapest first.
fn cheapest_first(adapters: &Vec<EthereumNetworkAdapter>) -> (sorted: Vec<EthereumNetworkAdapter>)
    ensures
        adapter_models(sorted@) == by_cost(adapter_models(adapters@)),
{
    let ghost all = adapter_models(adapters@);
    let mut sorted: Vec<EthereumNetworkAdapter> = Vec::new();
    add_costing(&mut sorted, adapters, 0);
    add_costing(&mut sorted, adapters, 1);
    add_costing(&mut sorted, adapters, 2);
    assert(adapter_models(sorted@) =~= by_cost(all));
    sorted
}

/// Appends the nodes of `adapters` that have `cost` capabilities, in their order.
fn add_costing(
    sorted: &mut Vec<EthereumNetworkAdapter>,
    adapters: &Vec<EthereumNetworkAdapter>,
    cost: u8,
)
    ensures
        adapter_models(final(sorted)@) == adapter_models(old(sorted)@) + costing(
            adapter_models(adapters@),
            cost as nat,
        ),
{
    let ghost start = adapter_models(sorted@);
    let ghost all = adapter_models(adapters@);
    let mut i: usize = 0;
    proof {
        reveal(Seq::filter);
        assert(all.take(0) =~= Seq::<AdapterModel>::empty());
        assert(costing(all.take(0), cost as nat) =~= Seq::<AdapterModel>::empty());
    }
    while i < adapters.len()
        invariant
            i <= adapters@.len(),
            all == adapter_models(adapters@),
            adapter_models(sorted@) =~= start + costing(all.take(i as int), cost as nat),
        decreases adapters.len() - i,
    {
        proof {
            reveal(Seq::filter);
            assert(all.take(i + 1).drop_last() =~= all.take(i as int));
            assert(all.take(i + 1).last() == adapters@[i as int]@);
        }
        if adapters[i].capabilities.count() == cost {
            let ghost before = sorted@;
            sorted.push(adapters[i].copy());
            assert(adapter_models(sorted@) =~= adapter_models(before).push(adapters@[i as int]@));
        }
        i = i + 1;
    }
    assert(all.take(i as int) =~= all);
}

/// The same nodes once more.
fn copies(adapters: &Vec<EthereumNetworkAdapter>) -> (same: Vec<EthereumNetworkAdapter>)
    ensures
        adapter_models(same@) == adapter_models(adapters@),
{
    let mut same: Vec<EthereumNetworkAdapter> = Vec::new();
    let mut i: usize = 0;
    while i < adapters.len()
        invariant
            i <= adapters.len(),
            adapter_models(same@) =~= adapter_models(adapters@).take(i as int),
        decreases adapters.len() - i,
    {
        let ghost before = same@;
        same.push(adapters[i].copy());
        assert(adapter_models(same@) =~= adapter_models(before).push(adapters@[i as int]@));
        i = i + 1;
    }
    same
}

impl EthereumEndpoint {
    /// The same endpoint once more.
    pub fn copy(&self) -> (same: EthereumEndpoint)
        ensures
            same@ == self@,
    {
        EthereumEndpoint { connection_type: self.connection_type, url: self.url.clone() }
    }
}

impl EthereumNetworkAdapter {
    /// The same node once more.
    pub fn copy(&self) -> (same: EthereumNetworkAdapter)
        ensures
            same@ == self@,
    {
        EthereumNetworkAdapter { capabilities: self.capabilities, endpoint: self.endpoint.copy() }
    }
}

} // verus!
