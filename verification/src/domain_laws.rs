//! Which URLs and hosts are handled.

use crate::domains::MAX_NAME_LEN;
use crate::domains;
use crate::text;
use vstd::prelude::*;

verus! {

/// Only the first letter of the scheme tells whether a URL can have a domain name; spaces and
/// control characters before it are skipped.
pub proof fn the_first_letter_tells_the_scheme(blank: Seq<char>, c: char, rest: Seq<char>)
    requires
        forall|i: int| 0 <= i < blank.len() ==> #[trigger] blank[i] <= ' ',
        c > ' ',
    ensures
        domains::has_other_scheme(blank + seq![c] + rest) <==> !seq![
            'f',
            'g',
            'h',
            'w',
            'F',
            'G',
            'H',
            'W',
        ].contains(c),
        domains::has_other_scheme(blank),
    decreases blank.len(),
{
    let letters = seq!['f', 'g', 'h', 'w', 'F', 'G', 'H', 'W'];
    let url = blank + seq![c] + rest;
    assert(letters[0] == 'f' && letters[1] == 'g' && letters[2] == 'h' && letters[3] == 'w'
        && letters[4] == 'F' && letters[5] == 'G' && letters[6] == 'H' && letters[7] == 'W');
    if blank.len() > 0 {
        let fewer = blank.drop_first();
        assert(blank[0] <= ' ');
        assert forall|i: int| 0 <= i < fewer.len() implies #[trigger] fewer[i] <= ' ' by {
            assert(fewer[i] == blank[i + 1]);
        }
        the_first_letter_tells_the_scheme(fewer, c, rest);
        assert(url.drop_first() =~= fewer + seq![c] + rest);
        assert(url[0] == blank[0]);
    } else {
        assert(url[0] == c);
    }
}

/// A name is handled where it has at most 200 characters; and also where it has visible ASCII
/// characters alone, no percent sign and no two hyphens in a row. No other is.
pub proof fn short_and_simple_names_are_handled(name: Seq<char>)
    ensures
        MAX_NAME_LEN == 200,
        name.len() <= 200 ==> domains::is_handled_name(name),
        (forall|i: int|
            0 <= i < name.len() ==> '!' <= #[trigger] name[i] <= '~' && name[i] != '%' && !(i > 0
                && name[i] == '-' && name[i - 1] == '-')) ==> domains::is_handled_name(name),
        domains::is_handled_name(name) && name.len() > 200 ==> forall|i: int|
            0 <= i < name.len() ==> '!' <= #[trigger] name[i] <= '~' && name[i] != '%' && !(i > 0
                && name[i] == '-' && name[i - 1] == '-'),
{
}

/// The authority of a URL is what stands between the slashes after its scheme and the next slash,
/// backslash, question mark or number sign.
pub proof fn authorities_stand_between_slashes(
    scheme: Seq<char>,
    slashes: Seq<char>,
    authority: Seq<char>,
    rest: Seq<char>,
)
    requires
        !scheme.contains(':'),
        forall|i: int|
            0 <= i < slashes.len() ==> (#[trigger] slashes[i] == '/' || slashes[i] == '\\'
                || slashes[i] == '\t' || slashes[i] == '\n' || slashes[i] == '\r'),
        authority.len() > 0 ==> authority[0] != '\t' && authority[0] != '\n' && authority[0]
            != '\r',
        authority.len() == 0 && rest.len() > 0 ==> rest[0] == '?' || rest[0] == '#',
        !authority.contains('/'),
        !authority.contains('\\'),
        !authority.contains('?'),
        !authority.contains('#'),
        rest.len() == 0 || rest[0] == '/' || rest[0] == '\\' || rest[0] == '?' || rest[0] == '#',
    ensures
        domains::authority(scheme + seq![':'] + slashes + authority + rest) == authority,
        domains::is_handled_url(scheme + seq![':'] + slashes + authority + rest)
            <==> domains::has_other_scheme(scheme + seq![':'] + slashes + authority + rest)
            || domains::is_handled_name(authority),
{
    let url = scheme + seq![':'] + slashes + authority + rest;
    assert forall|j: int| 0 <= j < scheme.len() implies url[j] != ':' by {
        assert(url[j] == scheme[j]);
    }
    assert(url[scheme.len() as int] == ':');
    text::lemma_first_index_unique(url, ':', scheme.len() as int);
    let after = url.skip(scheme.len() + 1int);
    assert(after =~= slashes + (authority + rest));
    if authority.len() > 0 {
        assert(authority.contains(authority[0]));
        assert((authority + rest)[0] == authority[0]);
    } else {
        assert(authority + rest =~= rest);
    }
    lemma_slashes(slashes, authority + rest);
    assert(after.skip(slashes.len() as int) =~= authority + rest);
    lemma_authority(authority, rest);
    assert((authority + rest).take(authority.len() as int) =~= authority);
}

/// A host is handled for a URL that can have no domain name, and where its name is handled.
pub proof fn hosts_are_handled_by_their_names(url: Seq<char>, host: Seq<char>)
    ensures
        domains::is_handled_host(url, host) <==> domains::has_other_scheme(url)
            || domains::is_handled_name(host),
        !url.contains(':') ==> domains::is_handled_url(url),
{
}

/// Slashes are counted up to the first character that is none.
proof fn lemma_slashes(slashes: Seq<char>, rest: Seq<char>)
    requires
        forall|i: int|
            0 <= i < slashes.len() ==> (#[trigger] slashes[i] == '/' || slashes[i] == '\\'
                || slashes[i] == '\t' || slashes[i] == '\n' || slashes[i] == '\r'),
        rest.len() > 0 ==> rest[0] != '/' && rest[0] != '\\' && rest[0] != '\t' && rest[0] != '\n'
            && rest[0] != '\r',
    ensures
        domains::slashes(slashes + rest) == slashes.len(),
    decreases slashes.len(),
{
    let all = slashes + rest;
    if slashes.len() > 0 {
        let fewer = slashes.drop_first();
        assert forall|i: int| 0 <= i < fewer.len() implies (#[trigger] fewer[i] == '/' || fewer[i]
            == '\\' || fewer[i] == '\t' || fewer[i] == '\n' || fewer[i] == '\r') by {
            assert(fewer[i] == slashes[i + 1]);
        }
        lemma_slashes(fewer, rest);
        assert(all.drop_first() =~= fewer + rest);
        assert(all[0] == slashes[0]);
    } else {
        assert(all =~= rest);
    }
}

/// An authority is counted up to the first character that ends it.
proof fn lemma_authority(authority: Seq<char>, rest: Seq<char>)
    requires
        !authority.contains('/'),
        !authority.contains('\\'),
        !authority.contains('?'),
        !authority.contains('#'),
        rest.len() == 0 || rest[0] == '/' || rest[0] == '\\' || rest[0] == '?' || rest[0] == '#',
    ensures
        domains::authority_len(authority + rest) == authority.len(),
    decreases authority.len(),
{
    let all = authority + rest;
    if authority.len() > 0 {
        let fewer = authority.drop_first();
        assert forall|i: int| 0 <= i < fewer.len() implies authority.contains(
            #[trigger] fewer[i],
        ) by {
            assert(fewer[i] == authority[i + 1]);
        }
        lemma_authority(fewer, rest);
        assert(all.drop_first() =~= fewer + rest);
        assert(all[0] == authority[0]);
        assert(authority.contains(authority[0]));
    } else {
        assert(all =~= rest);
    }
}

} // verus!
