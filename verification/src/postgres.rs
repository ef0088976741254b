//! The connections to Postgres: the URLs of the read replicas and the size of the pool.

use crate::decimal;
use crate::domains;
use crate::text;
use url::Url;
use vstd::prelude::*;
use vstd::string::*;

verus! {

/// `url::Url`: a parsed URL.
#[verifier::external_type_specification]
#[verifier::external_body]
pub struct ExUrl(url::Url);

/// The text of a `Url`, in three pieces: what stands before the host, the host, and what stands
/// after it.
pub struct UrlText {
    pub before: Seq<char>,
    pub host: Seq<char>,
    pub after: Seq<char>,
}

impl UrlText {
    /// The whole text.
    pub open spec fn whole(self) -> Seq<char> {
        self.before + self.host + self.after
    }

    /// Whether the scheme is one of those that Postgres uses, and an authority follows it.
    pub open spec fn is_postgres(self) -> bool {
        "postgres://"@.is_prefix_of(self.before) || "postgresql://"@.is_prefix_of(self.before)
    }

    /// Whether the scheme is one of those whose hosts are domain names.
    pub open spec fn is_special(self) -> bool {
        let scheme = self.before.take(text::first_index(self.before, ':'));
        scheme == "http"@ || scheme == "https"@ || scheme == "ws"@ || scheme == "wss"@ || scheme
            == "ftp"@ || scheme == "gopher"@ || scheme == "file"@
    }

    /// How the URL takes a host. One without an authority takes a host only where its path starts
    /// with a slash.
    pub open spec fn host_kind(self) -> HostKind {
        if self.is_special() {
            HostKind::Domain
        } else if self.before.contains('/') || (self.after.len() > 0 && self.after[0] == '/') {
            HostKind::Opaque
        } else {
            HostKind::Refused
        }
    }

    /// Whether the URL has a host that is not a domain name, and the host is set off from what
    /// follows it. A path that starts with a backslash is not set off from a host without a port.
    pub open spec fn has_opaque_host(self) -> bool {
        &&& self.host_kind() is Opaque
        &&& self.before.contains('/')
        &&& self.host.len() > 0
        &&& self.after.len() > 0 ==> self.after[0] != '\\'
        &&& self.whole().len() <= MAX_URL_LEN
    }

    /// The text with another host. A URL without an authority has nothing but its scheme before
    /// the place of the host, and gets the two slashes that set off an authority.
    pub open spec fn with_host(self, host: Seq<char>) -> UrlText {
        UrlText {
            before: if self.before.contains('/') {
                self.before
            } else {
                self.before + "//"@
            },
            host,
            after: self.after,
        }
    }
}

/// How a URL takes a host.
pub enum HostKind {
    /// As a domain name.
    Domain,
    /// As a text that is only percent-encoded.
    Opaque,
    /// Not at all.
    Refused,
}

/// The host of a Postgres URL is not a domain name, and what stands before it sets off an
/// authority.
pub proof fn postgres_hosts_are_opaque(url: UrlText)
    requires
        url.is_postgres(),
    ensures
        url.host_kind() is Opaque,
        url.before.contains('/'),
{
    reveal_strlit("postgres://");
    reveal_strlit("postgresql://");
    reveal_strlit("http");
    reveal_strlit("https");
    reveal_strlit("ws");
    reveal_strlit("wss");
    reveal_strlit("ftp");
    reveal_strlit("gopher");
    reveal_strlit("file");
    let start = if "postgres://"@.is_prefix_of(url.before) {
        "postgres://"@
    } else {
        "postgresql://"@
    };
    assert forall|i: int| 0 <= i < start.len() implies url.before[i] == #[trigger] start[i] by {
    }
    let colon: int = start.len() - 3;
    assert(url.before[colon + 1] == start[colon + 1]);
    assert(start[colon] == ':');
    assert forall|i: int| 0 <= i < colon implies url.before[i] != ':' by {
        assert(url.before[i] == start[i]);
    }
    text::lemma_first_index_unique(url.before, ':', colon);
    assert(url.before.take(colon).len() >= 8);
}

/// The text that a `Url` holds.
pub uninterp spec fn url_text(url: url::Url) -> UrlText;

/// What `Url::parse` makes of a text: the text of the URL, or nothing where it is not a URL.
pub uninterp spec fn parse_outcome(input: Seq<char>) -> Option<UrlText>;

/// What `Url::set_host` makes of a host on a URL that takes hosts in the given way: the text that
/// the host gets in the URL, or the text of the error.
pub uninterp spec fn host_outcome(kind: HostKind, host: Seq<char>) -> Result<Seq<char>, Seq<char>>;

/// Whether the text of a URL stands for that URL: it is parsed into the same pieces, and the host
/// in it is taken as it is.
pub open spec fn is_settled(url: UrlText) -> bool {
    &&& parse_outcome(url.whole()) == Some(url)
    &&& host_outcome(url.host_kind(), url.host) == Ok::<_, Seq<char>>(url.host)
}

/// The longest URL that is handled, in characters.
pub const MAX_URL_LEN: usize = 0x7fff_ffff;

/// The largest number of bytes that a URL can have.
pub const MAX_URL_BYTES: u128 = 0xffff_ffff;

/// What a domain name of at most `domains::MAX_NAME_LEN` characters can grow to when it is encoded,
/// and more, in bytes.
pub const DOMAIN_ROOM: u128 = 0x1_0000;

/// Whether a URL has room for a host in the number of bytes that it can have. The URL is ASCII, and
/// a character of the host takes twelve bytes at most once it is percent-encoded.
pub open spec fn has_room(url: Seq<char>, host: Seq<char>) -> bool {
    url.len() + 12 * host.len() + DOMAIN_ROOM <= MAX_URL_BYTES
}

/// The name in a host that may end with a port.
pub open spec fn host_name(host: Seq<char>) -> Seq<char> {
    if host.contains(':') {
        host.take(text::first_index(host, ':'))
    } else {
        host
    }
}

/// Whether a character cannot stand in the name of a host.
pub open spec fn is_forbidden(c: char) -> bool {
    c == '\0' || c == '\t' || c == '\n' || c == '\r' || c == ' ' || c == '#' || c == '/' || c == ':'
        || c == '?' || c == '@' || c == '[' || c == '\\' || c == ']'
}

/// Whether the name in a host is written with visible ASCII characters alone, none of which is
/// forbidden.
pub open spec fn is_plain_host(host: Seq<char>) -> bool {
    &&& host.len() > 0 ==> host[0] != ':'
    &&& forall|i: int|
        0 <= i < host_name(host).len() ==> {
            let c = #[trigger] host_name(host)[i];
            '!' <= c && c <= '~' && !is_forbidden(c)
        }
}

/// Whether a host is not an address in brackets, and has no name or a forbidden character in it.
pub open spec fn is_wrong_host(host: Seq<char>) -> bool {
    &&& host.len() > 0
    &&& host[0] != '['
    &&& host[0] == ':' || exists|i: int|
        0 <= i < host_name(host).len() && is_forbidden(#[trigger] host_name(host)[i])
}

/// What comes of a host that is read from its characters alone: the text that it gets, or the text
/// of the error. Nothing is said of domain names, of addresses in brackets, and of hosts with
/// characters that are percent-encoded.
pub open spec fn known_outcome(kind: HostKind, host: Seq<char>) -> Option<
    Result<Seq<char>, Seq<char>>,
> {
    match kind {
        HostKind::Refused => Some(
            Err("a cannot-be-a-base URL doesn\u{2019}t have a host to set"@),
        ),
        HostKind::Domain => if host.len() == 0 {
            Some(Err("empty host"@))
        } else {
            None
        },
        HostKind::Opaque => if is_plain_host(host) {
            Some(Ok(host_name(host)))
        } else if is_wrong_host(host) {
            Some(Err("invalid domain character"@))
        } else {
            None
        },
    }
}

/// `Url::parse`, without its error. The claim is that the text of the URL, and whether there is
/// one, depend on the input alone, and that the text of a URL with a host that is no domain name
/// is settled: what a URL is written with is escaped or left out when it is read, so reading it
/// once more changes nothing. `Url::parse` counts the characters of the user name and password with
/// an `i32`, and hands domain names to `idna`, which computes with a `u32` that long labels
/// overflow; both panic where overflows are checked, and the two bounds rule them out.
#[verifier::external_body]
fn parse_url(input: &str) -> (parsed: Option<Url>)
    requires
        input@.len() <= MAX_URL_LEN,
        domains::is_handled_url(input@),
    ensures
        match parsed {
            Some(url) => parse_outcome(input@) == Some(url_text(url)),
            None => parse_outcome(input@) is None,
        },
        parsed matches Some(url) ==> (url_text(url).has_opaque_host() ==> is_settled(
            url_text(url),
        )),
{
    match Url::parse(input) {
        Ok(url) => Some(url),
        Err(_) => None,
    }
}

/// `Url::as_str`: the whole text of the URL.
#[verifier::external_body]
fn url_str(url: &Url) -> (text: &str)
    ensures
        text@ == url_text(*url).whole(),
{
    url.as_str()
}

/// `Url::set_host` with a host given, and an error given as its text. The claim is that it
/// replaces the host alone; that the text of the new host depends on how the URL takes hosts and
/// on the given host alone, and is the known one where one is known; that an error leaves the URL
/// as it was; and that the text of a URL with a host that is no domain name stays settled, whatever
/// host that is not empty it gets, unless it becomes too long to be read. `Url::set_host` panics
/// where the new text has more than `u32::MAX` bytes, and hands domain names to `idna`, which
/// panics on long labels where overflows are checked; the two bounds rule that out.
#[verifier::external_body]
fn set_url_host(url: &mut Url, host: &str) -> (replaced: Result<(), String>)
    requires
        has_room(url_text(*old(url)).whole(), host@),
        domains::is_handled_host(url_text(*old(url)).whole(), host@),
    ensures
        match replaced {
            Ok(()) => host_outcome(url_text(*old(url)).host_kind(), host@) matches Ok(text)
                && url_text(*final(url)) == url_text(*old(url)).with_host(text),
            Err(error) => host_outcome(url_text(*old(url)).host_kind(), host@) == Err::<
                Seq<char>,
                Seq<char>,
            >(error@) && url_text(*final(url)) == url_text(*old(url)),
        },
        known_outcome(url_text(*old(url)).host_kind(), host@) matches Some(outcome) ==> match replaced {
            Ok(()) => outcome matches Ok(text) && url_text(*final(url)) == url_text(
                *old(url),
            ).with_host(text),
            Err(error) => outcome == Err::<Seq<char>, Seq<char>>(error@),
        },
        replaced is Ok && host@.len() > 0 && url_text(*old(url)).has_opaque_host() && is_settled(
            url_text(*old(url)),
        ) && url_text(*final(url)).whole().len() <= MAX_URL_LEN ==> is_settled(
            url_text(*final(url)),
        ),
{
    match url.set_host(Some(host)) {
        Ok(()) => Ok(()),
        Err(error) => Err(error.to_string()),
    }
}

/// `Url::into_string`: the whole text of the URL.
#[verifier::external_body]
fn url_into_string(url: Url) -> (text: String)
    ensures
        text@ == url_text(url).whole(),
{
    url.into_string()
}

/// Why the host of a Postgres URL cannot be replaced.
#[derive(Debug)]
pub enum ReplaceHostError {
    /// The text is not a URL; what the operator is told.
    InvalidUrl(String),
    /// The URL cannot have the host; what the operator is told.
    InvalidHost(String),
}

/// The mathematical value of a `ReplaceHostError`.
pub enum ReplaceHostFailure {
    InvalidUrl(Seq<char>),
    InvalidHost(Seq<char>),
}

impl View for ReplaceHostError {
    type V = ReplaceHostFailure;

    open spec fn view(&self) -> ReplaceHostFailure {
        match self {
            ReplaceHostError::InvalidUrl(message) => ReplaceHostFailure::InvalidUrl(message@),
            ReplaceHostError::InvalidHost(message) => ReplaceHostFailure::InvalidHost(message@),
        }
    }
}

/// The URL with another host, or why there is none.
pub open spec fn replaced_host(url: Seq<char>, host: Seq<char>) -> Result<
    Seq<char>,
    ReplaceHostFailure,
> {
    match parse_outcome(url) {
        None => Err(ReplaceHostFailure::InvalidUrl("Invalid Postgres URL "@ + url)),
        Some(parsed) => match host_outcome(parsed.host_kind(), host) {
            Ok(text) => Ok(parsed.with_host(text).whole()),
            Err(error) => Err(
                ReplaceHostFailure::InvalidHost(invalid_host_text(parsed.whole(), error)),
            ),
        },
    }
}

/// Whether a URL and a host are handled, and short enough for the number of bytes that a URL can
/// have.
pub open spec fn fits(url: Seq<char>, host: Seq<char>) -> bool {
    &&& url.len() <= MAX_URL_LEN
    &&& domains::is_handled_url(url)
    &&& parse_outcome(url) matches Some(parsed) ==> domains::is_handled_host(parsed.whole(), host)
        && has_room(parsed.whole(), host)
}

/// Where the outcome of setting the host is known, replacing it gives that outcome.
pub open spec fn is_as_known(
    url: Seq<char>,
    host: Seq<char>,
    replaced: Result<Seq<char>, ReplaceHostFailure>,
) -> bool {
    parse_outcome(url) matches Some(parsed) ==> (known_outcome(parsed.host_kind(), host) matches Some(
        outcome,
    ) ==> replaced == (match outcome {
        Ok(text) => Ok(parsed.with_host(text).whole()),
        Err(error) => Err(
            ReplaceHostFailure::InvalidHost(invalid_host_text(parsed.whole(), error)),
        ),
    }))
}

/// Read again, the text that replacing a host gave has that host, and all else as the URL had it.
pub open spec fn keeps_all_but_the_host(url: UrlText, host: Seq<char>, text: Seq<char>) -> bool {
    parse_outcome(text) matches Some(again) && again.before == url.before && again.after
        == url.after && host_outcome(url.host_kind(), host) == Ok::<_, Seq<char>>(again.host) && (
    is_plain_host(host) ==> again.host == host_name(host))
}

/// The host that is set last decides: to replace the host in `text` is to replace it in `url`.
pub open spec fn last_host_decides(url: Seq<char>, text: Seq<char>) -> bool {
    forall|host: Seq<char>|
        {
            &&& #[trigger] replaced_host(text, host) is Ok <==> replaced_host(url, host) is Ok
            &&& replaced_host(text, host) is Ok ==> replaced_host(text, host) == replaced_host(
                url,
                host,
            )
        }
}

/// Setting the host that the URL had gives back the URL as it was parsed.
pub open spec fn first_host_restores(url: UrlText, text: Seq<char>) -> bool {
    replaced_host(text, url.host) == Ok::<_, ReplaceHostFailure>(url.whole())
}

/// What holds of the text that replacing the host of `url` by `host` gives, for a URL with a host
/// that is no domain name and for a new host that is not empty, unless the text is too long to be
/// read.
pub open spec fn is_faithful(url: Seq<char>, host: Seq<char>, text: Seq<char>) -> bool {
    parse_outcome(url) matches Some(parsed) ==> (parsed.has_opaque_host() && host.len() > 0
        && text.len() <= MAX_URL_LEN ==> {
        &&& keeps_all_but_the_host(parsed, host, text)
        &&& last_host_decides(url, text)
        &&& first_host_restores(parsed, url)
        &&& first_host_restores(parsed, text)
    })
}

/// A URL with an authority and a text that is parsed into it with another host take hosts alike.
proof fn lemma_faithful(url: Seq<char>, host: Seq<char>, text: Seq<char>, new_host: Seq<char>)
    requires
        parse_outcome(url) is Some,
        parse_outcome(url)->0.before.contains('/'),
        is_settled(parse_outcome(url)->0),
        host_outcome(parse_outcome(url)->0.host_kind(), host) == Ok::<_, Seq<char>>(new_host),
        is_plain_host(host) ==> new_host == host_name(host),
        parse_outcome(text) == Some(parse_outcome(url)->0.with_host(new_host)),
    ensures
        is_faithful(url, host, text),
{
    let parsed = parse_outcome(url)->0;
    let again = parsed.with_host(new_host);
    assert(again.before == parsed.before);
    assert(again.host_kind() == parsed.host_kind());
    assert forall|other: Seq<char>|
        {
            &&& #[trigger] replaced_host(text, other) is Ok <==> replaced_host(url, other) is Ok
            &&& replaced_host(text, other) is Ok ==> replaced_host(text, other) == replaced_host(
                url,
                other,
            )
        } by {
        if let Ok(other_host) = host_outcome(parsed.host_kind(), other) {
            assert(again.with_host(other_host) == parsed.with_host(other_host));
        }
    }
    assert(parsed.with_host(parsed.host) == parsed);
}

/// What the operator is told of a host that a URL cannot have.
pub open spec fn invalid_host_text(url: Seq<char>, error: Seq<char>) -> Seq<char> {
    "Invalid Postgres url "@ + url + ": "@ + error
}

/// What comes of replacing a host: the text of the URL, or what the operator is told.
pub fn host_result(url: String, outcome: Result<(), String>) -> (result: Result<
    String,
    ReplaceHostError,
>)
    ensures
        match outcome {
            Ok(()) => result matches Ok(text) && text@ == url@,
            Err(error) => result matches Err(failure) && failure@
                == ReplaceHostFailure::InvalidHost(invalid_host_text(url@, error@)),
        },
{
    match outcome {
        Ok(()) => Ok(url),
        Err(error) => Err(
            ReplaceHostError::InvalidHost(
                "Invalid Postgres url ".to_string().concat(url.as_str()).concat(": ").concat(
                    error.as_str(),
                ),
            ),
        ),
    }
}

/// Replaces the host of a Postgres URL and keeps everything else.
pub fn replace_host(url: &str, host: &str) -> (replaced: Result<String, ReplaceHostError>)
    requires
        fits(url@, host@),
    ensures
        match replaced {
            Ok(text) => replaced_host(url@, host@) == Ok::<_, ReplaceHostFailure>(text@),
            Err(failure) => replaced_host(url@, host@) == Err::<Seq<char>, _>(failure@),
        },
        match replaced {
            Ok(text) => is_as_known(url@, host@, Ok(text@)) && is_faithful(url@, host@, text@),
            Err(failure) => is_as_known(url@, host@, Err(failure@)),
        },
{
    let mut parsed = match parse_url(url) {
        Some(parsed) => parsed,
        None => {
            return Err(
                ReplaceHostError::InvalidUrl("Invalid Postgres URL ".to_string().concat(url)),
            );
        },
    };
    let ghost before = url_text(parsed);
    let outcome = set_url_host(&mut parsed, host);
    let ghost after = url_text(parsed);
    proof {
        if outcome is Ok && before.has_opaque_host() && host@.len() > 0 && after.whole().len()
            <= MAX_URL_LEN {
            lemma_faithful(url@, host@, after.whole(), after.host);
        }
    }
    host_result(url_into_string(parsed), outcome)
}

/// Replaces the host of a Postgres URL, unless the URL or the host is too long.
pub fn try_replace_host(url: &str, host: &str) -> (replaced: Option<
    Result<String, ReplaceHostError>,
>)
    ensures
        match replaced {
            Some(Ok(text)) => fits(url@, host@) && replaced_host(url@, host@) == Ok::<
                _,
                ReplaceHostFailure,
            >(text@) && is_as_known(url@, host@, Ok(text@)) && is_faithful(url@, host@, text@),
            Some(Err(failure)) => fits(url@, host@) && replaced_host(url@, host@) == Err::<
                Seq<char>,
                _,
            >(failure@) && is_as_known(url@, host@, Err(failure@)),
            None => !fits(url@, host@),
        },
{
    if url.unicode_len() > MAX_URL_LEN || !domains::handles_url(url) {
        return None;
    }
    if let Some(parsed) = parse_url(url) {
        let text = url_str(&parsed);
        let bytes: u128 = text.unicode_len() as u128 + 12 * host.unicode_len() as u128
            + DOMAIN_ROOM;
        if bytes > MAX_URL_BYTES || !domains::handles_host(text, host) {
            return None;
        }
    }
    Some(replace_host(url, host))
}

/// A pool of connections to a read replica.
#[derive(Debug)]
pub struct ReplicaPool {
    pub name: String,
    pub url: String,
}

impl ReplicaPool {
    /// The name and the URL.
    pub open spec fn parts(self) -> (Seq<char>, Seq<char>) {
        (self.name@, self.url@)
    }
}

/// The names and URLs of a list of pools.
pub open spec fn pool_parts(pools: Seq<ReplicaPool>) -> Seq<(Seq<char>, Seq<char>)> {
    pools.map_values(|p: ReplicaPool| p.parts())
}

/// The name of the pool of the replica at an index.
pub open spec fn pool_name(index: nat) -> Seq<char> {
    "replica"@ + decimal::numeral(index)
}

/// Why a read replica cannot be connected to.
#[derive(Debug)]
pub enum ReplicaError {
    /// Its host cannot be put into the URL of the primary.
    Host(ReplaceHostError),
    /// Its host or the URL of the primary is too long.
    TooLong,
}

/// The mathematical value of a `ReplicaError`.
pub enum ReplicaFailure {
    Host(ReplaceHostFailure),
    TooLong,
}

impl View for ReplicaError {
    type V = ReplicaFailure;

    open spec fn view(&self) -> ReplicaFailure {
        match self {
            ReplicaError::Host(failure) => ReplicaFailure::Host(failure@),
            ReplicaError::TooLong => ReplicaFailure::TooLong,
        }
    }
}

/// The URL of the read replica at a host, or why there is none.
pub open spec fn replica_url(postgres_url: Seq<char>, host: Seq<char>) -> Result<
    Seq<char>,
    ReplicaFailure,
> {
    if !fits(postgres_url, host) {
        Err(ReplicaFailure::TooLong)
    } else {
        match replaced_host(postgres_url, host) {
            Ok(url) => Ok(url),
            Err(failure) => Err(ReplicaFailure::Host(failure)),
        }
    }
}

/// The pools for a list of hosts, or why the first host that is wrong is wrong.
pub open spec fn pools_of(postgres_url: Seq<char>, hosts: Seq<Seq<char>>) -> Result<
    Seq<(Seq<char>, Seq<char>)>,
    ReplicaFailure,
>
    decreases hosts.len(),
{
    if hosts.len() == 0 {
        Ok(Seq::empty())
    } else {
        match pools_of(postgres_url, hosts.drop_last()) {
            Err(failure) => Err(failure),
            Ok(pools) => match replica_url(postgres_url, hosts.last()) {
                Err(failure) => Err(failure),
                Ok(url) => Ok(pools.push((pool_name((hosts.len() - 1) as nat), url))),
            },
        }
    }
}

/// The pools of connections to the read replicas. Each replica is reached like the primary, at
/// its own host.
pub fn read_replicas(postgres_url: &str, hosts: &Vec<String>) -> (pools: Result<
    Vec<ReplicaPool>,
    ReplicaError,
>)
    ensures
        match pools {
            Ok(pools) => pools_of(postgres_url@, text::views(hosts@)) == Ok::<
                _,
                ReplicaFailure,
            >(pool_parts(pools@)),
            Err(failure) => pools_of(postgres_url@, text::views(hosts@)) == Err::<
                Seq<(Seq<char>, Seq<char>)>,
                _,
            >(failure@),
        },
        pools matches Ok(pools) ==> pools@.len() == hosts@.len() && forall|i: int|
            0 <= i < pools@.len() ==> (#[trigger] pools@[i]).name@ == "replica"@ + decimal::numeral(
                i as nat,
            ) && replaced_host(postgres_url@, hosts@[i]@) == Ok::<_, ReplaceHostFailure>(
                pools@[i].url@,
            ) && is_as_known(postgres_url@, hosts@[i]@, Ok(pools@[i].url@)) && is_faithful(
                postgres_url@,
                hosts@[i]@,
                pools@[i].url@,
            ),
        pools matches Err(failure) ==> exists|k: int|
            0 <= k < hosts@.len() && (match failure {
                ReplicaError::Host(failure) => replaced_host(
                    postgres_url@,
                    (#[trigger] hosts@[k])@,
                ) == Err::<Seq<char>, _>(failure@) && is_as_known(
                    postgres_url@,
                    hosts@[k]@,
                    Err(failure@),
                ),
                ReplicaError::TooLong => !fits(postgres_url@, hosts@[k]@),
            }) && forall|j: int|
                0 <= j < k ==> fits(postgres_url@, (#[trigger] hosts@[j])@) && replaced_host(
                    postgres_url@,
                    hosts@[j]@,
                ) is Ok,
{
    let ghost all = text::views(hosts@);
    let mut pools: Vec<ReplicaPool> = Vec::new();
    let mut i: usize = 0;
    assert(all.take(0) =~= Seq::<Seq<char>>::empty());
    assert(pool_parts(pools@) =~= Seq::<(Seq<char>, Seq<char>)>::empty());
    while i < hosts.len()
        invariant
            i <= hosts@.len(),
            all == text::views(hosts@),
            pools_of(postgres_url@, all.take(i as int)) == Ok::<_, ReplicaFailure>(
                pool_parts(pools@),
            ),
            pools@.len() == i,
            forall|j: int|
                0 <= j < i ==> (#[trigger] pools@[j]).name@ == "replica"@ + decimal::numeral(
                    j as nat,
                ) && replaced_host(postgres_url@, hosts@[j]@) == Ok::<_, ReplaceHostFailure>(
                    pools@[j].url@,
                ) && is_as_known(postgres_url@, hosts@[j]@, Ok(pools@[j].url@)) && is_faithful(
                    postgres_url@,
                    hosts@[j]@,
                    pools@[j].url@,
                ),
            forall|j: int|
                0 <= j < i ==> fits(postgres_url@, (#[trigger] hosts@[j])@) && replaced_host(
                    postgres_url@,
                    hosts@[j]@,
                ) is Ok,
        decreases hosts.len() - i,
    {
        assert(all.take(i + 1).drop_last() =~= all.take(i as int));
        assert(all.take(i + 1).last() == hosts@[i as int]@);
        let replaced = match try_replace_host(postgres_url, hosts[i].as_str()) {
            Some(Ok(url)) => Ok(url),
            Some(Err(failure)) => Err(ReplicaError::Host(failure)),
            None => Err(ReplicaError::TooLong),
        };
        match replaced {
            Ok(url) => {
                let name = "replica".to_string().concat(decimal::render(i as u64).as_str());
                let ghost before = pools@;
                pools.push(ReplicaPool { name, url });
                assert(pool_parts(pools@) =~= pool_parts(before).push((name@, url@)));
            },
            Err(failure) => {
                proof {
                    first_wrong_host_decides(postgres_url@, all, i + 1);
                }
                return Err(failure);
            },
        }
        i = i + 1;
    }
    assert(all.take(i as int) =~= all);
    Ok(pools)
}

/// Once the first `n` hosts are refused, so is the whole list, for the same reason.
pub proof fn first_wrong_host_decides(postgres_url: Seq<char>, hosts: Seq<Seq<char>>, n: int)
    requires
        0 <= n <= hosts.len(),
        pools_of(postgres_url, hosts.take(n)) is Err,
    ensures
        pools_of(postgres_url, hosts) == pools_of(postgres_url, hosts.take(n)),
    decreases hosts.len() - n,
{
    if n == hosts.len() {
        assert(hosts.take(n) =~= hosts);
    } else {
        assert(hosts.take(n + 1).drop_last() =~= hosts.take(n));
        first_wrong_host_decides(postgres_url, hosts, n + 1);
    }
}

/// There is one pool for each host, in the order of the hosts, named after its place in the list
/// and connected to the primary's URL with that host.
pub proof fn each_replica_has_its_pool(postgres_url: Seq<char>, hosts: Seq<Seq<char>>)
    ensures
        pools_of(postgres_url, hosts) matches Ok(pools) ==> pools.len() == hosts.len()
            && forall|i: int|
            0 <= i < hosts.len() ==> (#[trigger] pools[i]).0 == pool_name(i as nat)
                && replica_url(postgres_url, hosts[i]) == Ok::<_, ReplicaFailure>(
                pools[i].1,
            ),
        pools_of(postgres_url, hosts) is Ok <==> forall|i: int|
            0 <= i < hosts.len() ==> replica_url(postgres_url, #[trigger] hosts[i]) is Ok,
    decreases hosts.len(),
{
    if hosts.len() > 0 {
        let rest = hosts.drop_last();
        each_replica_has_its_pool(postgres_url, rest);
        assert(forall|i: int| 0 <= i < rest.len() ==> #[trigger] rest[i] == hosts[i]);
        assert(hosts[hosts.len() - 1] == hosts.last());
        if pools_of(postgres_url, hosts) is Ok {
            let before = pools_of(postgres_url, rest)->Ok_0;
            let pools = pools_of(postgres_url, hosts)->Ok_0;
            assert forall|i: int| 0 <= i < hosts.len() implies (#[trigger] pools[i]).0 == pool_name(
                i as nat,
            ) && replica_url(postgres_url, hosts[i]) == Ok::<_, ReplicaFailure>(
                pools[i].1,
            ) by {
                if i < rest.len() {
                    assert(pools[i] == before[i]);
                    assert(rest[i] == hosts[i]);
                }
            }
            assert forall|i: int| 0 <= i < hosts.len() implies replica_url(
                postgres_url,
                #[trigger] hosts[i],
            ) is Ok by {
                assert(pools[i].0 == pool_name(i as nat));
            }
        } else if pools_of(postgres_url, rest) is Ok {
            assert(replica_url(postgres_url, hosts[hosts.len() - 1]) is Err);
        } else {
            let k = choose|i: int|
                0 <= i < rest.len() && replica_url(postgres_url, #[trigger] rest[i]) is Err;
            assert(replica_url(postgres_url, rest[k]) is Err);
            assert(replica_url(postgres_url, hosts[k]) is Err);
        }
    }
}

/// No two replicas share the name of a pool.
pub proof fn pool_names_are_distinct(i: nat, j: nat)
    requires
        pool_name(i) == pool_name(j),
    ensures
        i == j,
{
    let prefix = "replica"@;
    assert(pool_name(i).skip(prefix.len() as int) =~= decimal::numeral(i));
    assert(pool_name(j).skip(prefix.len() as int) =~= decimal::numeral(j));
    decimal::numerals_are_distinct(i, j);
}

/// A pool with too few connections.
#[derive(Clone, Copy, Debug, PartialEq, Eq, Structural)]
pub struct PoolTooSmall;

/// The store needs two connections at least to come up.
pub open spec fn is_big_enough(pool_size: u32) -> bool {
    pool_size >= 2
}

/// Checks the size of the connection pool.
pub fn check_pool_size(pool_size: u32) -> (checked: Result<u32, PoolTooSmall>)
    ensures
        checked == (if is_big_enough(pool_size) {
            Ok::<u32, PoolTooSmall>(pool_size)
        } else {
            Err::<u32, PoolTooSmall>(PoolTooSmall)
        }),
        checked is Ok <==> pool_size > 1,
        checked matches Ok(size) ==> size == pool_size,
{
    if pool_size <= 1 {
        Err(PoolTooSmall)
    } else {
        Ok(pool_size)
    }
}

impl PoolTooSmall {
    /// What the operator is told.
    pub fn message(&self) -> (message: String)
        ensures
            message@
                == "--store-connection-pool-size/STORE_CONNECTION_POOL_SIZE must be > 1"@,
    {
        "--store-connection-pool-size/STORE_CONNECTION_POOL_SIZE must be > 1".to_string()
    }
}

} // verus!
