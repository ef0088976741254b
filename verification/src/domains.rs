//! Which URLs and hosts are left to a parser of domain names that cannot take every long name.
//!
//! A name is turned into ASCII label by label. The arithmetic for a label that is not ASCII
//! overflows from some 3,800 characters on; a character can become 18 when it is normalized. So a
//! name is taken that is short enough for that, or that holds nothing that could become a character
//! outside of ASCII.

use crate::text;
use vstd::prelude::*;
use vstd::string::*;

verus! {

/// The longest name that is taken whatever it holds, in characters.
pub const MAX_NAME_LEN: usize = 200;

/// Whether a name is and stays ASCII: it is written with visible ASCII characters, none of them a
/// percent sign, and has no two hyphens in a row, with which the encoded form of a label begins.
pub open spec fn is_simple_name(name: Seq<char>) -> bool {
    &&& forall|i: int| 0 <= i < name.len() ==> is_simple(#[trigger] name[i])
    &&& forall|i: int|
        0 < i < name.len() ==> !(name[i - 1] == '-' && #[trigger] name[i] == '-')
}

/// Whether a character is a visible ASCII character, and no percent sign.
pub open spec fn is_simple(c: char) -> bool {
    '!' <= c && c <= '~' && c != '%'
}

/// Whether a name is taken.
pub open spec fn is_handled_name(name: Seq<char>) -> bool {
    name.len() <= MAX_NAME_LEN || is_simple_name(name)
}

/// The first character of a text that is not a space or a control character.
pub open spec fn first_visible(text: Seq<char>) -> Option<char>
    decreases text.len(),
{
    if text.len() == 0 {
        None
    } else if text[0] > ' ' {
        Some(text[0])
    } else {
        first_visible(text.drop_first())
    }
}

/// Whether the host in a URL is not a domain name, as the first letter of its scheme shows: it is
/// not that of `file`, `ftp`, `gopher`, `http`, `https`, `ws` or `wss`.
pub open spec fn has_other_scheme(url: Seq<char>) -> bool {
    match first_visible(url) {
        None => true,
        Some(c) => c != 'f' && c != 'g' && c != 'h' && c != 'w' && c != 'F' && c != 'G' && c != 'H'
            && c != 'W',
    }
}

/// How many slashes, backslashes, tabs and line ends a text begins with.
pub open spec fn slashes(text: Seq<char>) -> nat
    decreases text.len(),
{
    if text.len() > 0 && (text[0] == '/' || text[0] == '\\' || text[0] == '\t' || text[0] == '\n'
        || text[0] == '\r') {
        1 + slashes(text.drop_first())
    } else {
        0
    }
}

/// How many characters stand in a text before what can follow the authority of a URL.
pub open spec fn authority_len(text: Seq<char>) -> nat
    decreases text.len(),
{
    if text.len() == 0 || text[0] == '/' || text[0] == '\\' || text[0] == '?' || text[0] == '#' {
        0
    } else {
        1 + authority_len(text.drop_first())
    }
}

/// What stands between the slashes after the scheme of a URL and its path: the host, and around it
/// the user and the port.
pub open spec fn authority(url: Seq<char>) -> Seq<char> {
    if url.contains(':') {
        let rest = url.skip(text::first_index(url, ':') + 1);
        let start = rest.skip(slashes(rest) as int);
        start.take(authority_len(start) as int)
    } else {
        Seq::empty()
    }
}

/// Whether a URL is taken.
pub open spec fn is_handled_url(url: Seq<char>) -> bool {
    has_other_scheme(url) || is_handled_name(authority(url))
}

/// Whether a host is taken for a URL.
pub open spec fn is_handled_host(url: Seq<char>, host: Seq<char>) -> bool {
    has_other_scheme(url) || is_handled_name(host)
}

/// Whether a name is taken.
fn handles_name(name: &str) -> (handled: bool)
    ensures
        handled == is_handled_name(name@),
{
    if name.unicode_len() <= MAX_NAME_LEN {
        return true;
    }
    let mut hyphen = false;
    let mut i: usize = 0;
    let n: usize = name.unicode_len();
    for c in chars: name.chars()
        invariant
            i == chars.index(),
            chars.seq() == name@,
            n == name@.len(),
            n > MAX_NAME_LEN,
            hyphen == (i > 0 && name@[i - 1] == '-'),
            forall|j: int| 0 <= j < i ==> is_simple(#[trigger] name@[j]),
            forall|j: int| 0 < j < i ==> !(name@[j - 1] == '-' && #[trigger] name@[j] == '-'),
    {
        assert(name@[i as int] == c);
        let simple = '!' <= c && c <= '~' && c != '%';
        if !simple || (hyphen && c == '-') {
            return false;
        }
        hyphen = c == '-';
        i = i + 1;
    }
    true
}

/// Whether the host in a URL is not a domain name.
fn names_other_scheme(url: &str) -> (other: bool)
    ensures
        other == has_other_scheme(url@),
{
    let mut i: usize = 0;
    let n: usize = url.unicode_len();
    assert(url@.skip(0) =~= url@);
    for c in chars: url.chars()
        invariant
            i == chars.index(),
            chars.seq() == url@,
            n == url@.len(),
            first_visible(url@) == first_visible(url@.skip(i as int)),
    {
        assert(url@.skip(i as int)[0] == c);
        assert(url@.skip(i as int).drop_first() =~= url@.skip(i + 1));
        if c > ' ' {
            return c != 'f' && c != 'g' && c != 'h' && c != 'w' && c != 'F' && c != 'G' && c != 'H'
                && c != 'W';
        }
        i = i + 1;
    }
    assert(first_visible(url@.skip(n as int)) is None);
    true
}

/// How many slashes, backslashes, tabs and line ends a text begins with.
fn count_slashes(text: &str) -> (count: usize)
    ensures
        count == slashes(text@),
        count <= text@.len(),
{
    let mut i: usize = 0;
    let n: usize = text.unicode_len();
    assert(text@.skip(0) =~= text@);
    for c in chars: text.chars()
        invariant
            i == chars.index(),
            chars.seq() == text@,
            n == text@.len(),
            slashes(text@) == i + slashes(text@.skip(i as int)),
    {
        assert(text@.skip(i as int)[0] == c);
        assert(text@.skip(i as int).drop_first() =~= text@.skip(i + 1));
        if c != '/' && c != '\\' && c != '\t' && c != '\n' && c != '\r' {
            return i;
        }
        i = i + 1;
    }
    assert(slashes(text@.skip(n as int)) == 0);
    n
}

/// How many characters stand in a text before what can follow the authority of a URL.
fn count_authority(text: &str) -> (count: usize)
    ensures
        count == authority_len(text@),
        count <= text@.len(),
{
    let mut i: usize = 0;
    let n: usize = text.unicode_len();
    assert(text@.skip(0) =~= text@);
    for c in chars: text.chars()
        invariant
            i == chars.index(),
            chars.seq() == text@,
            n == text@.len(),
            authority_len(text@) == i + authority_len(text@.skip(i as int)),
    {
        assert(text@.skip(i as int)[0] == c);
        assert(text@.skip(i as int).drop_first() =~= text@.skip(i + 1));
        if c == '/' || c == '\\' || c == '?' || c == '#' {
            return i;
        }
        i = i + 1;
    }
    assert(authority_len(text@.skip(n as int)) == 0);
    n
}

/// Whether a URL is taken.
pub fn handles_url(url: &str) -> (handled: bool)
    ensures
        handled == is_handled_url(url@),
{
    if names_other_scheme(url) {
        return true;
    }
    let n: usize = url.unicode_len();
    match text::find(url, ':') {
        None => true,
        Some(colon) => {
            let rest = url.substring_char(colon + 1, n);
            assert(rest@ =~= url@.skip(colon + 1));
            let start = rest.substring_char(count_slashes(rest), rest.unicode_len());
            assert(start@ =~= rest@.skip(slashes(rest@) as int));
            let name = start.substring_char(0, count_authority(start));
            assert(name@ =~= start@.take(authority_len(start@) as int));
            handles_name(name)
        },
    }
}

/// Whether a host is taken for a URL.
pub fn handles_host(url: &str, host: &str) -> (handled: bool)
    ensures
        handled == is_handled_host(url@, host@),
{
    names_other_scheme(url) || handles_name(host)
}

} // verus!
