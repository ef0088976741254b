//! What replacing the host of a URL gives, and what that means for the read replicas.

use crate::decimal;
use crate::domains;
use crate::postgres::{
    HostKind, ReplaceHostError, ReplaceHostFailure, ReplicaError, ReplicaFailure, ReplicaPool,
    UrlText, DOMAIN_ROOM, MAX_URL_BYTES, MAX_URL_LEN,
};
use crate::postgres;
use crate::text;
use vstd::prelude::*;

verus! {

/// The text of a URL is its three pieces one after the other. Another host takes the place of the
/// host alone; two slashes come before it where none sets off an authority yet.
pub proof fn hosts_have_their_place(url: UrlText, host: Seq<char>)
    ensures
        url.whole() == url.before + url.host + url.after,
        url.before.contains('/') ==> url.with_host(host).whole() == url.before + host + url.after,
        !url.before.contains('/') ==> url.with_host(host).whole() == url.before + "//"@ + host
            + url.after,
        url.with_host(host).host == host,
        url.with_host(host).after == url.after,
        url.is_postgres() <==> "postgres://"@.is_prefix_of(url.before)
            || "postgresql://"@.is_prefix_of(url.before),
{
}

/// How a URL takes hosts, as its scheme and its first slash show.
pub proof fn schemes_tell_the_kind_of_host(
    scheme: Seq<char>,
    rest: Seq<char>,
    host: Seq<char>,
    after: Seq<char>,
)
    requires
        !scheme.contains(':'),
        !scheme.contains('/'),
    ensures
        ({
            let url = UrlText { before: scheme + seq![':'] + rest, host, after };
            let special = scheme == "http"@ || scheme == "https"@ || scheme == "ws"@ || scheme
                == "wss"@ || scheme == "ftp"@ || scheme == "gopher"@ || scheme == "file"@;
            let slash = rest.contains('/') || (after.len() > 0 && after[0] == '/');
            &&& url.host_kind() is Domain <==> special
            &&& url.host_kind() is Opaque <==> !special && slash
            &&& url.host_kind() is Refused <==> !special && !slash
        }),
{
    let before = scheme + seq![':'] + rest;
    assert forall|j: int| 0 <= j < scheme.len() implies before[j] != ':' by {
        assert(before[j] == scheme[j]);
    }
    assert(before[scheme.len() as int] == ':');
    text::lemma_first_index_unique(before, ':', scheme.len() as int);
    assert(before.take(scheme.len() as int) =~= scheme);
    if rest.contains('/') {
        let k = rest.index_of('/');
        assert(rest[k] == '/');
        assert(before[scheme.len() + 1 + k] == '/');
    }
    if before.contains('/') {
        let k = before.index_of('/');
        assert(before[k] == '/');
        if k < scheme.len() {
            assert(scheme[k] == '/');
        } else {
            assert(rest[k - scheme.len() - 1] == '/');
        }
    }
}

/// The name in a host is what stands before the first colon, or all of it.
pub proof fn ports_are_not_part_of_the_name(name: Seq<char>, port: Seq<char>)
    requires
        !name.contains(':'),
    ensures
        postgres::host_name(name) == name,
        postgres::host_name(name + seq![':'] + port) == name,
{
    let host = name + seq![':'] + port;
    assert forall|j: int| 0 <= j < name.len() implies host[j] != ':' by {
        assert(host[j] == name[j]);
    }
    assert(host[name.len() as int] == ':');
    text::lemma_first_index_unique(host, ':', name.len() as int);
    assert(host.take(name.len() as int) =~= name);
}

/// A name of visible ASCII characters, other than the eight that set off the parts of a URL, is
/// known to be taken as it is where hosts are no domain names, with or without a port.
pub proof fn plain_names_are_taken_as_they_are(name: Seq<char>, port: Seq<char>)
    requires
        forall|i: int| 0 <= i < name.len() ==> '!' <= #[trigger] name[i] <= '~',
        !name.contains('#'),
        !name.contains('/'),
        !name.contains(':'),
        !name.contains('?'),
        !name.contains('@'),
        !name.contains('['),
        !name.contains('\\'),
        !name.contains(']'),
    ensures
        postgres::is_plain_host(name),
        postgres::known_outcome(HostKind::Opaque, name) == Some(Ok::<_, Seq<char>>(name)),
        name.len() > 0 ==> postgres::known_outcome(HostKind::Opaque, name + seq![':'] + port)
            == Some(Ok::<_, Seq<char>>(name)),
{
    let host = name + seq![':'] + port;
    ports_are_not_part_of_the_name(name, port);
    assert forall|i: int| 0 <= i < name.len() implies !postgres::is_forbidden(
        #[trigger] name[i],
    ) by {
        assert(name.contains(name[i]));
    }
    if name.len() > 0 {
        assert(name.contains(name[0]));
        assert(host[0] == name[0]);
    }
}

/// A name with a character that cannot stand in it is known to be refused where hosts are no
/// domain names, unless it begins like an address in brackets; and so is a host without a name.
pub proof fn wrong_names_are_refused(name: Seq<char>, i: int, port: Seq<char>)
    requires
        0 <= i < name.len(),
        name[0] != '[',
        !name.contains(':'),
        name[i] == '\0' || name[i] == '\t' || name[i] == '\n' || name[i] == '\r' || name[i] == ' '
            || name[i] == '#' || name[i] == '/' || name[i] == '?' || name[i] == '@' || name[i]
            == '[' || name[i] == '\\' || name[i] == ']',
    ensures
        postgres::known_outcome(HostKind::Opaque, name) == Some(
            Err::<Seq<char>, _>("invalid domain character"@),
        ),
        postgres::known_outcome(HostKind::Opaque, name + seq![':'] + port) == Some(
            Err::<Seq<char>, _>("invalid domain character"@),
        ),
        postgres::known_outcome(HostKind::Opaque, seq![':'] + port) == Some(
            Err::<Seq<char>, _>("invalid domain character"@),
        ),
{
    let host = name + seq![':'] + port;
    ports_are_not_part_of_the_name(name, port);
    assert(postgres::is_forbidden(postgres::host_name(name)[i]));
    assert(postgres::is_forbidden(postgres::host_name(host)[i]));
    assert(name.contains(name[0]));
    assert(host[0] == name[0]);
    assert((seq![':'] + port)[0] == ':');
}

/// Nothing is known of what else can be given as a host: of domain names that are not empty, of
/// addresses in brackets, and of names with other control characters or outside of ASCII.
pub proof fn other_hosts_are_not_known(host: Seq<char>, i: int)
    requires
        0 <= i < host.len(),
        !host.contains(':'),
        host[0] == '[' || {
            &&& host[i] <= ' ' || host[i] > '~'
            &&& forall|j: int|
                0 <= j < host.len() ==> {
                    let c = #[trigger] host[j];
                    c != '\0' && c != '\t' && c != '\n' && c != '\r' && c != ' ' && c != '#' && c
                        != '/' && c != '?' && c != '@' && c != '[' && c != '\\' && c != ']'
                }
        },
    ensures
        postgres::known_outcome(HostKind::Opaque, host) is None,
        postgres::known_outcome(HostKind::Domain, host) is None,
{
    assert(postgres::host_name(host) == host);
    assert(host.contains(host[0]));
    if host[0] == '[' {
        assert(postgres::is_forbidden(postgres::host_name(host)[0]));
    } else {
        assert(!('!' <= postgres::host_name(host)[i] && postgres::host_name(host)[i] <= '~'));
        assert forall|j: int| 0 <= j < host.len() implies !postgres::is_forbidden(
            #[trigger] host[j],
        ) by {
            assert(host.contains(host[j]));
        }
    }
}

/// A URL that takes no host refuses every one, and one with a domain name refuses the empty one.
pub proof fn some_urls_refuse_hosts(host: Seq<char>)
    ensures
        postgres::known_outcome(HostKind::Refused, host) == Some(
            Err::<Seq<char>, _>("a cannot-be-a-base URL doesn\u{2019}t have a host to set"@),
        ),
        postgres::known_outcome(HostKind::Domain, Seq::empty()) == Some(
            Err::<Seq<char>, _>("empty host"@),
        ),
{
}

/// Replacing the host fails where the text is no URL or the URL cannot have the host, and the
/// operator is told which; otherwise it gives the URL with the new host in the place of the old.
pub proof fn replacing_parses_and_sets(url: Seq<char>, host: Seq<char>)
    ensures
        postgres::parse_outcome(url) is None ==> postgres::replaced_host(url, host) == Err::<Seq<char>, _>(
            ReplaceHostFailure::InvalidUrl("Invalid Postgres URL "@ + url),
        ),
        postgres::parse_outcome(url) matches Some(parsed) ==> {
            &&& postgres::host_outcome(parsed.host_kind(), host) matches Err(error)
                ==> postgres::replaced_host(url, host) == Err::<Seq<char>, _>(
                ReplaceHostFailure::InvalidHost(
                    "Invalid Postgres url "@ + (parsed.before + parsed.host + parsed.after) + ": "@
                        + error,
                ),
            )
            &&& postgres::host_outcome(parsed.host_kind(), host) matches Ok(text)
                ==> postgres::replaced_host(url, host) == Ok::<_, ReplaceHostFailure>(
                if parsed.before.contains('/') {
                    parsed.before + text + parsed.after
                } else {
                    parsed.before + "//"@ + text + parsed.after
                },
            )
        },
{
}

/// What replacing the host gives where the outcome of setting it is known.
pub proof fn known_outcomes_come_about(
    url: Seq<char>,
    host: Seq<char>,
    replaced: Result<Seq<char>, ReplaceHostFailure>,
)
    requires
        postgres::is_as_known(url, host, replaced),
        postgres::parse_outcome(url) is Some,
    ensures
        ({
            let parsed = postgres::parse_outcome(url)->0;
            let known = postgres::known_outcome(parsed.host_kind(), host);
            &&& known matches Some(Ok(text)) ==> replaced == Ok::<_, ReplaceHostFailure>(
                if parsed.before.contains('/') {
                    parsed.before + text + parsed.after
                } else {
                    parsed.before + "//"@ + text + parsed.after
                },
            )
            &&& known matches Some(Err(error)) ==> replaced == Err::<Seq<char>, _>(
                ReplaceHostFailure::InvalidHost(
                    "Invalid Postgres url "@ + (parsed.before + parsed.host + parsed.after) + ": "@
                        + error,
                ),
            )
        }),
{
}

/// What holds of the URL of a replica where the primary's is a Postgres URL with a host: read
/// again it has the new host, and all else as before; replacing its host once more is like
/// replacing that of the primary's URL; and the primary's host gives back the primary's URL.
pub proof fn postgres_urls_keep_all_but_the_host(
    url: Seq<char>,
    host: Seq<char>,
    text: Seq<char>,
    other: Seq<char>,
)
    requires
        postgres::is_faithful(url, host, text),
        postgres::parse_outcome(url) is Some,
        "postgres://"@.is_prefix_of(postgres::parse_outcome(url)->0.before)
            || "postgresql://"@.is_prefix_of(postgres::parse_outcome(url)->0.before),
        postgres::parse_outcome(url)->0.host.len() > 0,
        postgres::parse_outcome(url)->0.after.len() > 0 ==> postgres::parse_outcome(
            url,
        )->0.after[0] != '\\',
        postgres::parse_outcome(url)->0.whole().len() <= 0x7fff_ffff,
        host.len() > 0,
        text.len() <= 0x7fff_ffff,
    ensures
        ({
            let parsed = postgres::parse_outcome(url)->0;
            &&& postgres::parse_outcome(text) matches Some(again) && again.before == parsed.before
                && again.after == parsed.after && postgres::host_outcome(parsed.host_kind(), host)
                == Ok::<_, Seq<char>>(again.host) && (postgres::is_plain_host(host) ==> again.host
                == postgres::host_name(host))
            &&& postgres::replaced_host(url, other) is Ok ==> postgres::replaced_host(text, other)
                == postgres::replaced_host(url, other)
            &&& postgres::replaced_host(text, other) is Ok ==> postgres::replaced_host(url, other)
                is Ok
            &&& postgres::replaced_host(text, parsed.host) == Ok::<_, ReplaceHostFailure>(
                parsed.before + parsed.host + parsed.after,
            )
            &&& postgres::replaced_host(url, parsed.host) == Ok::<_, ReplaceHostFailure>(
                parsed.before + parsed.host + parsed.after,
            )
        }),
{
    let parsed = postgres::parse_outcome(url)->0;
    postgres::postgres_hosts_are_opaque(parsed);
    assert(postgres::replaced_host(text, other) is Ok <==> postgres::replaced_host(
        url,
        other,
    ) is Ok);
}

/// Every Postgres URL and every host are handled, as long as the URL has `i32::MAX` characters at
/// most and the new one fits into `u32::MAX` bytes.
pub proof fn postgres_urls_fit(url: Seq<char>, host: Seq<char>)
    requires
        "postgres"@.is_prefix_of(url),
        url.len() <= 0x7fff_ffff,
        postgres::parse_outcome(url) matches Some(parsed) ==> "postgres"@.is_prefix_of(
            parsed.whole(),
        ) && parsed.whole().len() + 12 * host.len() + 0x1_0000 <= 0xffff_ffff,
    ensures
        postgres::fits(url, host),
        MAX_URL_LEN == 0x7fff_ffff,
        MAX_URL_BYTES == 0xffff_ffff,
        DOMAIN_ROOM == 0x1_0000,
{
    lemma_postgres_scheme(url);
    if postgres::parse_outcome(url) is Some {
        lemma_postgres_scheme(postgres::parse_outcome(url)->0.whole());
    }
}

/// A URL and a host fit if and only if both are handled and short enough.
pub proof fn lengths_and_names_decide_what_fits(url: Seq<char>, host: Seq<char>)
    ensures
        postgres::fits(url, host) <==> {
            &&& url.len() <= 0x7fff_ffff
            &&& domains::is_handled_url(url)
            &&& postgres::parse_outcome(url) matches Some(parsed) ==> domains::is_handled_host(
                parsed.before + parsed.host + parsed.after,
                host,
            ) && parsed.before.len() + parsed.host.len() + parsed.after.len() + 12 * host.len()
                + 0x1_0000 <= 0xffff_ffff
        },
{
}

/// A URL that begins with `postgres` is none with a domain name.
proof fn lemma_postgres_scheme(url: Seq<char>)
    requires
        "postgres"@.is_prefix_of(url),
    ensures
        domains::has_other_scheme(url),
{
    reveal_strlit("postgres");
    assert(url[0] == "postgres"@[0]);
}

/// The URL of a replica is that of the primary with the replica's host, or what is wrong with it.
pub proof fn replicas_are_reached_at_their_hosts(postgres_url: Seq<char>, host: Seq<char>)
    ensures
        !postgres::fits(postgres_url, host) ==> postgres::replica_url(postgres_url, host) == Err::<
            Seq<char>,
            _,
        >(ReplicaFailure::TooLong),
        postgres::fits(postgres_url, host) ==> (postgres::replaced_host(
            postgres_url,
            host,
        ) matches Ok(url) ==> postgres::replica_url(postgres_url, host) == Ok::<_, ReplicaFailure>(
            url,
        )),
        postgres::fits(postgres_url, host) ==> (postgres::replaced_host(
            postgres_url,
            host,
        ) matches Err(failure) ==> postgres::replica_url(postgres_url, host) == Err::<Seq<char>, _>(
            ReplicaFailure::Host(failure),
        )),
{
}

/// There is a pool for each host, in the order of the hosts: `replica0`, `replica1` and so on, each
/// with the primary's URL in which the host is replaced.
pub proof fn pools_belong_to_their_hosts(postgres_url: Seq<char>, hosts: Seq<Seq<char>>, i: int)
    requires
        0 <= i < hosts.len(),
        postgres::pools_of(postgres_url, hosts) is Ok,
    ensures
        postgres::pools_of(postgres_url, hosts)->Ok_0.len() == hosts.len(),
        postgres::pools_of(postgres_url, hosts)->Ok_0[i].0 == "replica"@ + decimal::numeral(
            i as nat,
        ),
        postgres::fits(postgres_url, hosts[i]),
        postgres::replaced_host(postgres_url, hosts[i]) == Ok::<_, ReplaceHostFailure>(
            postgres::pools_of(postgres_url, hosts)->Ok_0[i].1,
        ),
        postgres::pools_of(postgres_url, Seq::empty()) matches Ok(none) && none.len() == 0,
{
    postgres::each_replica_has_its_pool(postgres_url, hosts);
    let pools = postgres::pools_of(postgres_url, hosts)->Ok_0;
    assert(pools[i].0 == postgres::pool_name(i as nat));
    replicas_are_reached_at_their_hosts(postgres_url, hosts[i]);
}

/// The values of pools and errors are what they hold.
pub proof fn values_of_pools_are_their_fields(
    pools: Seq<ReplicaPool>,
    i: int,
    failure: ReplaceHostError,
    error: ReplicaError,
)
    requires
        0 <= i < pools.len(),
    ensures
        postgres::pool_parts(pools).len() == pools.len(),
        postgres::pool_parts(pools)[i] == (pools[i].name@, pools[i].url@),
        failure matches ReplaceHostError::InvalidUrl(message) ==> failure@
            == ReplaceHostFailure::InvalidUrl(message@),
        failure matches ReplaceHostError::InvalidHost(message) ==> failure@
            == ReplaceHostFailure::InvalidHost(message@),
        error matches ReplicaError::Host(inner) ==> error@ == ReplicaFailure::Host(inner@),
        error matches ReplicaError::TooLong ==> error@ == ReplicaFailure::TooLong,
{
}

/// What the operator is told of a host that a URL cannot have.
pub proof fn wrong_hosts_are_told(url: Seq<char>, error: Seq<char>)
    ensures
        postgres::invalid_host_text(url, error) == "Invalid Postgres url "@ + url + ": "@ + error,
{
}

} // verus!
