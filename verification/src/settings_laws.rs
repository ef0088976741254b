//! What the settings and the capabilities of nodes mean.

use crate::capabilities::NodeCapabilities;
use crate::postgres;
use crate::settings::{BlockSetting, DEFAULT_BLOCKS};
use crate::settings;
use crate::text;
use crate::text_laws;
use vstd::prelude::*;

verus! {

/// An address that names HTTP or HTTPS is left as it is; any other is reached over HTTP, and
/// nothing in it changes.
pub proof fn addresses_without_a_scheme_get_http(uri: Seq<char>)
    ensures
        settings::ipfs_address_of("http://"@ + uri) == "http://"@ + uri,
        settings::ipfs_address_of("https://"@ + uri) == "https://"@ + uri,
        "http://"@.is_prefix_of(uri) || "https://"@.is_prefix_of(uri) ==> settings::ipfs_address_of(
            uri,
        ) == uri,
        !"http://"@.is_prefix_of(uri) && !"https://"@.is_prefix_of(uri)
            ==> settings::ipfs_address_of(uri) == "http://"@ + uri,
{
    let http = "http://"@;
    let https = "https://"@;
    assert((http + uri).subrange(0, http.len() as int) =~= http);
    assert((https + uri).subrange(0, https.len() as int) =~= https);
}

/// The name of the subgraph is what stands before the first colon, and its hash what stands
/// between the first and the second, or after the first where there is only one. Without a colon
/// all is the hash, and the name is `cli`.
pub proof fn colons_set_off_names_and_hashes(name: Seq<char>, hash: Seq<char>, more: Seq<char>)
    requires
        !name.contains(':'),
        !hash.contains(':'),
    ensures
        settings::cli_subgraph_of(hash) == ("cli"@, hash),
        settings::cli_subgraph_of(name + seq![':'] + hash) == (name, hash),
        settings::cli_subgraph_of(name + seq![':'] + hash + seq![':'] + more) == (name, hash),
{
    settings::named_subgraphs_are_told_apart(name, hash);
    let rest = hash + seq![':'] + more;
    let arg = name + seq![':'] + rest;
    assert(arg =~= name + seq![':'] + hash + seq![':'] + more);
    assert(arg[name.len() as int] == ':');
    text_laws::separators_split(name, ':', rest);
    text_laws::separators_split(hash, ':', more);
    text_laws::unseparated_texts_are_one_piece(name, ':');
    text_laws::unseparated_texts_are_one_piece(hash, ':');
    text::lemma_split_head(more, ':');
    assert(text::split(arg, ':') == seq![name] + (seq![hash] + text::split(more, ':')));
}

/// Which environment variables set the numbers of blocks, and the number where they do not.
pub proof fn block_settings_have_their_variables(setting: BlockSetting)
    ensures
        setting == BlockSetting::ReorgThreshold ==> setting.variable_name()
            == "ETHEREUM_REORG_THRESHOLD"@,
        setting == BlockSetting::AncestorCount ==> setting.variable_name()
            == "ETHEREUM_ANCESTOR_COUNT"@,
        DEFAULT_BLOCKS == 50,
{
}

/// A pool is big enough from two connections on.
pub proof fn pools_are_big_enough_from_two_on(pool_size: u32)
    ensures
        postgres::is_big_enough(pool_size) <==> pool_size > 1,
{
}

/// A node covers a request if and only if the capabilities that the request needs add nothing to
/// those of the node.
pub proof fn covering_adds_nothing(a: NodeCapabilities, b: NodeCapabilities)
    ensures
        a.covers(b) <==> (NodeCapabilities {
            archive: a.archive || b.archive,
            traces: a.traces || b.traces,
        }) == a,
        NodeCapabilities::every().archive && NodeCapabilities::every().traces,
{
}

/// Each capability of a node adds one to its cost, and a node without any costs nothing.
pub proof fn capabilities_add_to_the_cost(archive: bool, traces: bool)
    ensures
        (NodeCapabilities { archive: false, traces: false }).cost() == 0,
        (NodeCapabilities { archive: true, traces }).cost() == (NodeCapabilities {
            archive: false,
            traces,
        }).cost() + 1,
        (NodeCapabilities { archive, traces: true }).cost() == (NodeCapabilities {
            archive,
            traces: false,
        }).cost() + 1,
{
}

/// A single name grants the capability that has the name, and no other.
pub proof fn names_grant_their_capability(name: Seq<char>)
    requires
        !name.contains(','),
    ensures
        NodeCapabilities::named_in(name) == (NodeCapabilities {
            archive: name == "archive"@,
            traces: name == "traces"@,
        }),
{
    text_laws::unseparated_texts_are_one_piece(name, ',');
    let names = text::split(name, ',');
    assert(names[0] == name);
    assert(names.contains("archive"@) <==> name == "archive"@);
    assert(names.contains("traces"@) <==> name == "traces"@);
}

/// Two lists with a comma between them grant what either grants.
pub proof fn commas_join_capabilities(a: Seq<char>, b: Seq<char>)
    ensures
        NodeCapabilities::named_in(a + seq![','] + b) == (NodeCapabilities {
            archive: NodeCapabilities::named_in(a).archive || NodeCapabilities::named_in(b).archive,
            traces: NodeCapabilities::named_in(a).traces || NodeCapabilities::named_in(b).traces,
        }),
{
    text_laws::separators_split(a, ',', b);
    lemma_contains_either(text::split(a, ','), text::split(b, ','), "archive"@);
    lemma_contains_either(text::split(a, ','), text::split(b, ','), "traces"@);
}

/// Two lists one after the other hold what either holds.
proof fn lemma_contains_either(a: Seq<Seq<char>>, b: Seq<Seq<char>>, item: Seq<char>)
    ensures
        (a + b).contains(item) <==> a.contains(item) || b.contains(item),
{
    if a.contains(item) {
        assert((a + b)[a.index_of(item)] == item);
    }
    if b.contains(item) {
        assert((a + b)[a.len() + b.index_of(item)] == item);
    }
    if (a + b).contains(item) {
        let k = (a + b).index_of(item);
        if k < a.len() {
            assert(a[k] == item);
        } else {
            assert(b[k - a.len()] == item);
        }
    }
}

} // verus!
