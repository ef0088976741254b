//! Settings from the command line and the environment.

use crate::decimal;
use crate::text;
use vstd::prelude::*;
use vstd::string::*;

verus! {

/// The address of an IPFS node: what the command line says, over HTTP where it does not say how.
pub open spec fn ipfs_address_of(uri: Seq<char>) -> Seq<char> {
    if has_http_scheme(uri) {
        uri
    } else {
        "http://"@ + uri
    }
}

/// Whether an address says that it is reached over HTTP or HTTPS.
pub open spec fn has_http_scheme(uri: Seq<char>) -> bool {
    "http://"@.is_prefix_of(uri) || "https://"@.is_prefix_of(uri)
}

/// The address of an IPFS node.
pub fn ipfs_address(uri: &str) -> (address: String)
    ensures
        address@ == ipfs_address_of(uri@),
        address@ == uri@ || address@ == "http://"@ + uri@,
        address@ == uri@ <== "http://"@.is_prefix_of(uri@) || "https://"@.is_prefix_of(uri@),
        address@ == "http://"@ + uri@ <== !"http://"@.is_prefix_of(uri@)
            && !"https://"@.is_prefix_of(uri@),
{
    if text::starts_with(uri, "http://") || text::starts_with(uri, "https://") {
        uri.to_string()
    } else {
        "http://".to_string().concat(uri)
    }
}

/// The addresses of the IPFS nodes, in order.
pub fn ipfs_addresses(uris: &Vec<String>) -> (addresses: Vec<String>)
    ensures
        text::views(addresses@) == text::views(uris@).map_values(
            |uri: Seq<char>| ipfs_address_of(uri),
        ),
{
    let ghost expected = text::views(uris@).map_values(|uri: Seq<char>| ipfs_address_of(uri));
    let mut addresses: Vec<String> = Vec::new();
    let mut i: usize = 0;
    while i < uris.len()
        invariant
            i <= uris@.len(),
            expected == text::views(uris@).map_values(|uri: Seq<char>| ipfs_address_of(uri)),
            text::views(addresses@) =~= expected.take(i as int),
        decreases uris.len() - i,
    {
        let ghost before = addresses@;
        addresses.push(ipfs_address(uris[i].as_str()));
        assert(text::views(addresses@) =~= text::views(before).push(expected[i as int]));
        i = i + 1;
    }
    assert(expected.take(i as int) =~= expected);
    addresses
}

/// The address of an IPFS node always says how it is reached, and making an address of an address
/// changes nothing.
pub proof fn ipfs_addresses_have_a_scheme(uri: Seq<char>)
    ensures
        has_http_scheme(ipfs_address_of(uri)),
        ipfs_address_of(ipfs_address_of(uri)) == ipfs_address_of(uri),
{
    if !has_http_scheme(uri) {
        let prefix = "http://"@;
        assert((prefix + uri).subrange(0, prefix.len() as int) =~= prefix);
    }
}

/// Where logs go to Elasticsearch.
#[derive(Debug)]
pub struct ElasticLoggingConfig {
    pub endpoint: String,
    pub username: Option<String>,
    pub password: Option<String>,
}

/// The logging configuration: there is one if and only if an endpoint is given.
pub fn elastic_config(
    endpoint: Option<String>,
    username: Option<String>,
    password: Option<String>,
) -> (config: Option<ElasticLoggingConfig>)
    ensures
        config == (match endpoint {
            Some(endpoint) => Some(ElasticLoggingConfig { endpoint, username, password }),
            None => None,
        }),
        config is Some <==> endpoint is Some,
        config matches Some(found) ==> found.endpoint@ == endpoint->0@ && found.username == username
            && found.password == password,
{
    match endpoint {
        Some(endpoint) => Some(ElasticLoggingConfig { endpoint, username, password }),
        None => None,
    }
}

/// The number of blocks where the environment does not say.
pub const DEFAULT_BLOCKS: u64 = 50;

/// A number of blocks that the environment can set.
#[derive(Clone, Copy, Debug, PartialEq, Eq, Structural)]
pub enum BlockSetting {
    /// How deep a reorganisation of the chain can go.
    ReorgThreshold,
    /// How many ancestors of the chain head are kept.
    AncestorCount,
}

/// A setting that is not a number.
#[derive(Clone, Copy, Debug, PartialEq, Eq, Structural)]
pub struct InvalidSetting {
    pub setting: BlockSetting,
}

impl BlockSetting {
    /// The name of the environment variable.
    pub open spec fn variable_name(self) -> Seq<char> {
        match self {
            BlockSetting::ReorgThreshold => "ETHEREUM_REORG_THRESHOLD"@,
            BlockSetting::AncestorCount => "ETHEREUM_ANCESTOR_COUNT"@,
        }
    }

    /// The name of the environment variable.
    pub fn variable(&self) -> (name: &'static str)
        ensures
            name@ == self.variable_name(),
    {
        match self {
            BlockSetting::ReorgThreshold => "ETHEREUM_REORG_THRESHOLD",
            BlockSetting::AncestorCount => "ETHEREUM_ANCESTOR_COUNT",
        }
    }

    /// Reads the setting from what the environment says, if it says anything.
    pub fn read(&self, value: &Option<String>) -> (blocks: Result<u64, InvalidSetting>)
        ensures
            blocks == (match *value {
                None => Ok::<u64, InvalidSetting>(DEFAULT_BLOCKS),
                Some(numeral) => match decimal::number(numeral@) {
                    Some(blocks) => Ok::<u64, InvalidSetting>(blocks),
                    None => Err::<u64, InvalidSetting>(InvalidSetting { setting: *self }),
                },
            }),
            value is None ==> blocks == Ok::<u64, InvalidSetting>(50),
            blocks matches Ok(n) ==> (value matches Some(numeral) ==> decimal::number(numeral@)
                == Some(n)),
            blocks matches Err(invalid) ==> invalid.setting == *self && (value matches Some(numeral)
                && decimal::number(numeral@) is None),
    {
        match value {
            None => Ok(DEFAULT_BLOCKS),
            Some(numeral) => match decimal::parse(numeral.as_str()) {
                Some(blocks) => Ok(blocks),
                None => Err(InvalidSetting { setting: *self }),
            },
        }
    }
}

impl InvalidSetting {
    /// What the operator is told.
    pub fn message(&self) -> (message: String)
        ensures
            message@ == "failed to parse env var "@ + self.setting.variable_name(),
    {
        "failed to parse env var ".to_string().concat(self.setting.variable())
    }
}

/// How the node switches to new versions of a subgraph: as the environment says, or at once.
pub fn version_switching_mode(value: Option<String>) -> (mode: String)
    ensures
        mode@ == (match value {
            Some(mode) => mode@,
            None => "instant"@,
        }),
        value is None ==> mode@ == "instant"@,
        value matches Some(given) ==> mode@ == given@,
{
    match value {
        Some(mode) => mode,
        None => "instant".to_string(),
    }
}

/// The name and the hash that an argument gives a subgraph.
pub open spec fn cli_subgraph_of(arg: Seq<char>) -> (Seq<char>, Seq<char>) {
    if arg.contains(':') {
        (text::split(arg, ':')[0], text::split(arg, ':')[1])
    } else {
        ("cli"@, arg)
    }
}

/// The name and the hash of the subgraph on the command line: `NAME:HASH`, or `HASH` alone for a
/// subgraph named `cli`. A further colon and what follows it are ignored.
pub fn cli_subgraph(arg: &str) -> (subgraph: (String, String))
    ensures
        (subgraph.0@, subgraph.1@) == cli_subgraph_of(arg@),
{
    let n: usize = arg.unicode_len();
    match text::find(arg, ':') {
        Some(i) => {
            let name = arg.substring_char(0, i);
            let rest = arg.substring_char(i + 1, n);
            proof {
                assert(name@ =~= arg@.take(i as int));
                assert(rest@ =~= arg@.skip(i + 1));
                text::lemma_split_head(rest@, ':');
            }
            let end: usize = match text::find(rest, ':') {
                Some(j) => j,
                None => n - i - 1,
            };
            let hash = rest.substring_char(0, end);
            assert(hash@ =~= rest@.take(end as int));
            (name.to_string(), hash.to_string())
        },
        None => ("cli".to_string(), arg.to_string()),
    }
}

/// A name and a hash that are joined by a colon are told apart again.
pub proof fn named_subgraphs_are_told_apart(name: Seq<char>, hash: Seq<char>)
    requires
        !name.contains(':'),
        !hash.contains(':'),
    ensures
        cli_subgraph_of(name + seq![':'] + hash) == (name, hash),
        cli_subgraph_of(hash) == ("cli"@, hash),
{
    let arg = name + seq![':'] + hash;
    assert(arg[name.len() as int] == ':');
    assert(forall|j: int| 0 <= j < name.len() ==> arg[j] == name[j]);
    text::lemma_first_index_unique(arg, ':', name.len() as int);
    assert(arg.take(name.len() as int) =~= name);
    assert(arg.skip((name.len() + 1) as int) =~= hash);
    text::lemma_split_head(hash, ':');
    text::lemma_first_index_unique(hash, ':', hash.len() as int);
    assert(hash.take(hash.len() as int) =~= hash);
}

} // verus!
