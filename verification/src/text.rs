//! Searching and splitting text, over the characters of a string.

use vstd::prelude::*;
use vstd::string::*;

verus! {

/// The index of the first `c` in `s`, or the length of `s` where there is none.
pub open spec fn first_index(s: Seq<char>, c: char) -> int
    decreases s.len(),
{
    if s.len() == 0 || s[0] == c {
        0
    } else {
        1 + first_index(s.drop_first(), c)
    }
}

/// The pieces of `s` between its occurrences of `sep`; one more piece than occurrences.
pub open spec fn split(s: Seq<char>, sep: char) -> Seq<Seq<char>>
    decreases s.len(),
{
    let i = first_index(s, sep);
    if 0 <= i < s.len() {
        seq![s.take(i)] + split(s.skip(i + 1), sep)
    } else {
        seq![s]
    }
}

/// What is left of `s` once every occurrence of `pattern`, read from the left and without
/// overlaps, is taken out.
pub open spec fn without(s: Seq<char>, pattern: Seq<char>) -> Seq<char>
    decreases s.len(),
{
    if s.len() == 0 || pattern.len() == 0 {
        s
    } else if pattern.is_prefix_of(s) {
        without(s.skip(pattern.len() as int), pattern)
    } else {
        seq![s[0]] + without(s.drop_first(), pattern)
    }
}

/// The first index of a character lies within the text, nothing before it is that character,
/// and it is that character unless it is the end of the text.
pub proof fn lemma_first_index(s: Seq<char>, c: char)
    ensures
        0 <= first_index(s, c) <= s.len(),
        forall|j: int| 0 <= j < first_index(s, c) ==> s[j] != c,
        first_index(s, c) < s.len() ==> s[first_index(s, c)] == c,
    decreases s.len(),
{
    if s.len() > 0 && s[0] != c {
        let rest = s.drop_first();
        lemma_first_index(rest, c);
        assert forall|j: int| 0 <= j < first_index(s, c) implies s[j] != c by {
            if j > 0 {
                assert(s[j] == rest[j - 1]);
            }
        }
    }
}

/// An index with the properties of the first index is the first index.
pub proof fn lemma_first_index_unique(s: Seq<char>, c: char, i: int)
    requires
        0 <= i <= s.len(),
        forall|j: int| 0 <= j < i ==> s[j] != c,
        i < s.len() ==> s[i] == c,
    ensures
        first_index(s, c) == i,
{
    lemma_first_index(s, c);
    let k = first_index(s, c);
    if k < i {
        assert(s[k] != c);
    } else if i < k {
        assert(s[i] != c);
    }
}

/// The first piece of a split text is what stands before the first separator.
pub proof fn lemma_split_head(s: Seq<char>, sep: char)
    ensures
        split(s, sep).len() > 0,
        split(s, sep)[0] == s.take(first_index(s, sep)),
{
    lemma_first_index(s, sep);
    if first_index(s, sep) == s.len() {
        assert(s.take(s.len() as int) =~= s);
    }
}

/// Whether `s` begins with `prefix`.
pub fn starts_with(s: &str, prefix: &str) -> (found: bool)
    ensures
        found == prefix@.is_prefix_of(s@),
{
    let n: usize = prefix.unicode_len();
    if s.unicode_len() < n {
        return false;
    }
    same(s.substring_char(0, n), prefix)
}

/// Whether `a` and `b` hold the same characters.
pub fn same(a: &str, b: &str) -> (equal: bool)
    ensures
        equal == (a@ == b@),
{
    a.to_string() == b.to_string()
}

/// The index of the first `c` in `s`.
pub fn find(s: &str, c: char) -> (index: Option<usize>)
    ensures
        match index {
            Some(i) => i < s@.len() && i == first_index(s@, c),
            None => first_index(s@, c) == s@.len(),
        },
        index is Some <==> s@.contains(c),
{
    let n: usize = s.unicode_len();
    let mut i: usize = 0;
    for d in chars: s.chars()
        invariant
            i == chars.index(),
            chars.seq() == s@,
            n == s@.len(),
            forall|j: int| 0 <= j < i ==> s@[j] != c,
    {
        if d == c {
            proof {
                lemma_first_index_unique(s@, c, i as int);
                assert(s@[i as int] == c);
            }
            return Some(i);
        }
        i = i + 1;
    }
    proof {
        lemma_first_index_unique(s@, c, n as int);
    }
    None
}

/// The pieces of `s` between its occurrences of `sep`.
pub fn split_on(s: &str, sep: char) -> (pieces: Vec<String>)
    ensures
        views(pieces@) == split(s@, sep),
{
    let mut pieces: Vec<String> = Vec::new();
    let n: usize = s.unicode_len();
    let mut start: usize = 0;
    assert(s@.skip(0) == s@);
    assert(views(pieces@) == Seq::<Seq<char>>::empty());
    loop
        invariant
            start <= n,
            n == s@.len(),
            views(pieces@) + split(s@.skip(start as int), sep) == split(s@, sep),
        decreases n - start,
    {
        let rest = s.substring_char(start, n);
        assert(rest@ == s@.skip(start as int));
        proof {
            lemma_first_index(rest@, sep);
        }
        let ghost before = pieces@;
        match find(rest, sep) {
            Some(i) => {
                let piece = rest.substring_char(0, i);
                assert(piece@ == rest@.take(i as int));
                pieces.push(piece.to_string());
                assert(views(pieces@) == views(before).push(piece@));
                assert(rest@.skip(i + 1) == s@.skip(start + i + 1));
                assert(views(before).push(piece@) + split(rest@.skip(i + 1), sep) == views(before)
                    + split(rest@, sep));
                start = start + i + 1;
            },
            None => {
                pieces.push(rest.to_string());
                assert(views(pieces@) == views(before) + split(rest@, sep));
                return pieces;
            },
        }
    }
}

/// The characters of each string of a list.
pub open spec fn views(strings: Seq<String>) -> Seq<Seq<char>> {
    strings.map_values(|s: String| s@)
}

/// `s` with every occurrence of `pattern` taken out.
pub fn remove_all(s: &str, pattern: &str) -> (left: String)
    ensures
        left@ == without(s@, pattern@),
{
    let mut left: String = String::new();
    let n: usize = s.unicode_len();
    let m: usize = pattern.unicode_len();
    if m == 0 {
        return s.to_string();
    }
    let mut start: usize = 0;
    assert(s@.skip(0) == s@);
    while start < n
        invariant
            start <= n,
            n == s@.len(),
            m == pattern@.len(),
            m > 0,
            left@ + without(s@.skip(start as int), pattern@) == without(s@, pattern@),
        decreases n - start,
    {
        let rest = s.substring_char(start, n);
        assert(rest@ == s@.skip(start as int));
        if starts_with(rest, pattern) {
            assert(rest@.skip(m as int) == s@.skip(start + m));
            start = start + m;
        } else {
            let head = s.substring_char(start, start + 1);
            assert(head@ == seq![rest@[0]]);
            assert(rest@.drop_first() == s@.skip(start + 1));
            let ghost before = left@;
            left.append(head);
            assert(left@ + without(rest@.drop_first(), pattern@) == before + (seq![rest@[0]]
                + without(rest@.drop_first(), pattern@)));
            start = start + 1;
        }
    }
    assert(left@ + without(s@.skip(n as int), pattern@) == left@);
    left
}

} // verus!
