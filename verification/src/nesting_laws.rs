//! Which brackets of a GraphQL text count for its nesting, and how.

use crate::nesting::{Place, Scan};
use crate::nesting;
use vstd::prelude::*;

verus! {

/// What is known once a text is read after what was read before.
spec fn scan_on(start: Scan, text: Seq<char>) -> Scan
    decreases text.len(),
{
    if text.len() == 0 {
        start
    } else {
        scan_on(start, text.drop_last()).then_reads(text.last())
    }
}

/// Reading two texts one after the other is reading them as one.
proof fn lemma_scan_on(a: Seq<char>, b: Seq<char>)
    ensures
        nesting::scan(a + b) == scan_on(nesting::scan(a), b),
    decreases b.len(),
{
    if b.len() == 0 {
        assert(a + b =~= a);
    } else {
        lemma_scan_on(a, b.drop_last());
        assert((a + b).drop_last() =~= a + b.drop_last());
        assert((a + b).last() == b.last());
    }
}

/// Reading a text in two parts is reading it at once.
proof fn lemma_scan_on_on(start: Scan, a: Seq<char>, b: Seq<char>)
    ensures
        scan_on(start, a + b) == scan_on(scan_on(start, a), b),
    decreases b.len(),
{
    if b.len() == 0 {
        assert(a + b =~= a);
    } else {
        lemma_scan_on_on(start, a, b.drop_last());
        assert((a + b).drop_last() =~= a + b.drop_last());
        assert((a + b).last() == b.last());
    }
}

/// Reading one character.
proof fn lemma_scan_on_one(start: Scan, c: char)
    ensures
        scan_on(start, seq![c]) == start.then_reads(c),
{
    assert(seq![c].drop_last() =~= Seq::<char>::empty());
    assert(scan_on(start, seq![c].drop_last()) == start);
}

/// After code comes code.
proof fn lemma_code(text: Seq<char>)
    requires
        !text.contains('"'),
        !text.contains('#'),
    ensures
        nesting::scan(text).place == Place::Code,
    decreases text.len(),
{
    if text.len() > 0 {
        let rest = text.drop_last();
        assert forall|i: int| 0 <= i < rest.len() implies rest[i] == #[trigger] text[i] by {
        }
        assert(!rest.contains('"') && !rest.contains('#'));
        lemma_code(rest);
        assert(text.contains(text.last()));
    }
}

/// Brackets that are never opened cannot be open: a text does not nest deeper than the number of
/// opening brackets in it, wherever they stand.
pub proof fn nesting_is_at_most_the_openers(text: Seq<char>)
    ensures
        nesting::nesting(text) <= text.filter(|c: char| c == '{' || c == '[').len(),
        nesting::scan(text).open <= nesting::nesting(text),
    decreases text.len(),
{
    reveal(Seq::filter);
    if text.len() > 0 {
        nesting_is_at_most_the_openers(text.drop_last());
        lemma_open_at_most_openers(text.drop_last());
    }
}

/// No more brackets are open than were opened.
proof fn lemma_open_at_most_openers(text: Seq<char>)
    ensures
        nesting::scan(text).open <= text.filter(|c: char| c == '{' || c == '[').len(),
    decreases text.len(),
{
    reveal(Seq::filter);
    if text.len() > 0 {
        lemma_open_at_most_openers(text.drop_last());
    }
}

/// In code, an opening bracket is one more that is open, a closing one is one less unless none is
/// open, and any other character changes nothing; and the nesting is the largest number that was
/// ever open.
pub proof fn brackets_in_code_open_and_close(text: Seq<char>, c: char)
    requires
        !text.contains('"'),
        !text.contains('#'),
    ensures
        nesting::nesting(Seq::empty()) == 0,
        nesting::scan(Seq::empty()).open == 0,
        nesting::scan(text.push(c)).open == (if c == '{' || c == '[' {
            nesting::scan(text).open + 1int
        } else if (c == '}' || c == ']') && nesting::scan(text).open > 0 {
            nesting::scan(text).open - 1
        } else {
            nesting::scan(text).open as int
        }),
        nesting::nesting(text.push(c)) == (if nesting::scan(text.push(c)).open > nesting::nesting(
            text,
        ) {
            nesting::scan(text.push(c)).open
        } else {
            nesting::nesting(text)
        }),
{
    lemma_code(text);
    assert(text.push(c).drop_last() =~= text);
}

/// Code that closes no bracket nests as deep as the number of brackets that it opens.
pub proof fn open_brackets_all_count(text: Seq<char>)
    requires
        !text.contains('"'),
        !text.contains('#'),
        !text.contains('}'),
        !text.contains(']'),
    ensures
        nesting::nesting(text) == text.filter(|c: char| c == '{' || c == '[').len(),
        nesting::scan(text).open == nesting::nesting(text),
    decreases text.len(),
{
    reveal(Seq::filter);
    if text.len() > 0 {
        let rest = text.drop_last();
        assert forall|i: int| 0 <= i < rest.len() implies rest[i] == #[trigger] text[i] by {
        }
        assert(text.contains(text.last()));
        assert(!rest.contains('"') && !rest.contains('#') && !rest.contains('}')
            && !rest.contains(']'));
        open_brackets_all_count(rest);
        brackets_in_code_open_and_close(rest, text.last());
        assert(rest.push(text.last()) =~= text);
    }
}

/// A comment does not count.
pub proof fn comments_do_not_count(code: Seq<char>, comment: Seq<char>)
    requires
        !code.contains('"'),
        !code.contains('#'),
        !comment.contains('\r'),
        !comment.contains('\n'),
    ensures
        nesting::nesting(code + seq!['#'] + comment) == nesting::nesting(code),
{
    lemma_code(code);
    lemma_scan_on(code, seq!['#']);
    lemma_scan_on_one(nesting::scan(code), '#');
    lemma_scan_on(code + seq!['#'], comment);
    lemma_comment(nesting::scan(code + seq!['#']), comment);
    assert(nesting::scan(code).deepest >= nesting::scan(code).open) by {
        nesting_is_at_most_the_openers(code);
    }
}

/// Within a comment nothing changes.
proof fn lemma_comment(start: Scan, comment: Seq<char>)
    requires
        start.place == Place::Comment,
        start.open <= start.deepest,
        !comment.contains('\r'),
        !comment.contains('\n'),
    ensures
        scan_on(start, comment) == start,
    decreases comment.len(),
{
    if comment.len() > 0 {
        let rest = comment.drop_last();
        assert forall|i: int| 0 <= i < rest.len() implies rest[i] == #[trigger] comment[i] by {
        }
        assert(comment.contains(comment.last()));
        assert(!rest.contains('\r') && !rest.contains('\n'));
        lemma_comment(start, rest);
    }
}

/// Within a string nothing changes but that its beginning is behind.
proof fn lemma_string(start: Scan, s: Seq<char>)
    requires
        start.place == Place::Quote || start.place == Place::Text,
        start.open <= start.deepest,
        s.len() > 0,
        !s.contains('"'),
        !s.contains('\\'),
    ensures
        scan_on(start, s) == (Scan { place: Place::Text, ..start }),
    decreases s.len(),
{
    let rest = s.drop_last();
    assert forall|i: int| 0 <= i < rest.len() implies rest[i] == #[trigger] s[i] by {
    }
    assert(s.contains(s.last()));
    assert(!rest.contains('"') && !rest.contains('\\'));
    if rest.len() > 0 {
        lemma_string(start, rest);
    } else {
        assert(scan_on(start, rest) == start);
    }
}

/// A string does not count: it could as well not be there.
pub proof fn strings_do_not_count(code: Seq<char>, s: Seq<char>, rest: Seq<char>)
    requires
        !code.contains('"'),
        !code.contains('#'),
        s.len() > 0,
        !s.contains('"'),
        !s.contains('\\'),
    ensures
        nesting::nesting(code + seq!['"'] + s + seq!['"'] + rest) == nesting::nesting(code + rest),
{
    let start = nesting::scan(code);
    lemma_code(code);
    nesting_is_at_most_the_openers(code);
    lemma_scan_on(code, seq!['"']);
    lemma_scan_on_one(start, '"');
    let quoted = nesting::scan(code + seq!['"']);
    lemma_scan_on(code + seq!['"'], s);
    lemma_string(quoted, s);
    lemma_scan_on(code + seq!['"'] + s, seq!['"']);
    lemma_scan_on_one(nesting::scan(code + seq!['"'] + s), '"');
    assert(nesting::scan(code + seq!['"'] + s + seq!['"']) == start);
    lemma_scan_on(code + seq!['"'] + s + seq!['"'], rest);
    lemma_scan_on(code, rest);
}

/// In a string, a backslash and the character after it are like any other character, also where
/// that character is a quotation mark.
pub proof fn escapes_do_not_end_strings(
    code: Seq<char>,
    before: Seq<char>,
    c: char,
    other: char,
    rest: Seq<char>,
)
    requires
        !code.contains('"'),
        !code.contains('#'),
        !before.contains('"'),
        !before.contains('\\'),
        other != '"',
        other != '\\',
    ensures
        nesting::nesting(code + seq!['"'] + before + seq!['\\', c] + rest) == nesting::nesting(
            code + seq!['"'] + before + seq![other] + rest,
        ),
{
    let start = nesting::scan(code);
    lemma_code(code);
    nesting_is_at_most_the_openers(code);
    let t1 = code + seq!['"'];
    lemma_scan_on(code, seq!['"']);
    lemma_scan_on_one(start, '"');
    let t2 = t1 + before;
    lemma_scan_on(t1, before);
    if before.len() > 0 {
        lemma_string(nesting::scan(t1), before);
    } else {
        assert(t2 =~= t1);
    }
    let t3 = t2 + seq!['\\'];
    lemma_scan_on(t2, seq!['\\']);
    lemma_scan_on_one(nesting::scan(t2), '\\');
    let t4 = t3 + seq![c];
    lemma_scan_on(t3, seq![c]);
    lemma_scan_on_one(nesting::scan(t3), c);
    assert(t2 + seq!['\\', c] =~= t4);
    let u = t2 + seq![other];
    lemma_scan_on(t2, seq![other]);
    lemma_scan_on_one(nesting::scan(t2), other);
    lemma_scan_on(t4, rest);
    lemma_scan_on(u, rest);
}

/// A block string does not count: it could as well not be there.
pub proof fn block_strings_do_not_count(code: Seq<char>, s: Seq<char>, rest: Seq<char>)
    requires
        !code.contains('"'),
        !code.contains('#'),
        !s.contains('"'),
        s.len() > 0 ==> s.last() != '\\',
    ensures
        nesting::nesting(
            code + seq!['"', '"', '"'] + s + seq!['"', '"', '"'] + rest,
        ) == nesting::nesting(code + rest),
{
    let start = nesting::scan(code);
    lemma_code(code);
    nesting_is_at_most_the_openers(code);
    lemma_three_quotes(start);
    let t1 = code + seq!['"', '"', '"'];
    lemma_scan_on(code, seq!['"', '"', '"']);
    let t2 = t1 + s;
    lemma_scan_on(t1, s);
    lemma_block(nesting::scan(t1), s);
    let t3 = t2 + seq!['"', '"', '"'];
    lemma_scan_on(t2, seq!['"', '"', '"']);
    lemma_three_quotes(nesting::scan(t2));
    assert(nesting::scan(t3) == start);
    lemma_scan_on(t3, rest);
    lemma_scan_on(code, rest);
}

/// Three quotation marks begin and end a block string.
proof fn lemma_three_quotes(start: Scan)
    requires
        start.open <= start.deepest,
    ensures
        start.place == Place::Code ==> scan_on(start, seq!['"', '"', '"']) == (Scan {
            place: Place::Block { quotes: 0, escaped: false },
            ..start
        }),
        start.place == (Place::Block { quotes: 0, escaped: false }) ==> scan_on(
            start,
            seq!['"', '"', '"'],
        ) == (Scan { place: Place::Code, ..start }),
{
    let one = seq!['"'];
    let two = seq!['"', '"'];
    let three = seq!['"', '"', '"'];
    assert(two =~= one + one);
    assert(three =~= two + one);
    lemma_scan_on_one(start, '"');
    lemma_scan_on_on(start, one, one);
    lemma_scan_on_one(scan_on(start, one), '"');
    lemma_scan_on_on(start, two, one);
    lemma_scan_on_one(scan_on(start, two), '"');
}

/// Within a block string nothing changes but whether a backslash stands last.
proof fn lemma_block(start: Scan, s: Seq<char>)
    requires
        start.place == (Place::Block { quotes: 0, escaped: false }),
        start.open <= start.deepest,
        !s.contains('"'),
    ensures
        scan_on(start, s) == (Scan {
            place: Place::Block { quotes: 0, escaped: s.len() > 0 && s.last() == '\\' },
            ..start
        }),
    decreases s.len(),
{
    if s.len() > 0 {
        let rest = s.drop_last();
        assert forall|i: int| 0 <= i < rest.len() implies rest[i] == #[trigger] s[i] by {
        }
        assert(s.contains(s.last()));
        assert(!rest.contains('"'));
        lemma_block(start, rest);
    }
}

/// Quotation marks within a block string do not end it while fewer than three stand in a row.
pub proof fn few_quotes_do_not_end_block_strings(
    code: Seq<char>,
    before: Seq<char>,
    quotes: Seq<char>,
    other: char,
    rest: Seq<char>,
)
    requires
        !code.contains('"'),
        !code.contains('#'),
        !before.contains('"'),
        quotes == seq!['"'] || quotes == seq!['"', '"'],
        other != '"',
    ensures
        nesting::nesting(
            code + seq!['"', '"', '"'] + before + quotes + seq![other] + rest,
        ) == nesting::nesting(code + seq!['"', '"', '"'] + before + seq![other] + rest),
{
    let start = nesting::scan(code);
    lemma_code(code);
    nesting_is_at_most_the_openers(code);
    lemma_three_quotes(start);
    let t1 = code + seq!['"', '"', '"'];
    lemma_scan_on(code, seq!['"', '"', '"']);
    let t2 = t1 + before;
    lemma_scan_on(t1, before);
    lemma_block(nesting::scan(t1), before);
    let t3 = t2 + quotes;
    lemma_scan_on(t2, quotes);
    lemma_scan_on_one(nesting::scan(t2), '"');
    if quotes != seq!['"'] {
        assert(quotes =~= seq!['"'] + seq!['"']);
        lemma_scan_on_on(nesting::scan(t2), seq!['"'], seq!['"']);
        lemma_scan_on_one(scan_on(nesting::scan(t2), seq!['"']), '"');
    }
    lemma_scan_on(t3, seq![other]);
    lemma_scan_on_one(nesting::scan(t3), other);
    lemma_scan_on(t2, seq![other]);
    lemma_scan_on_one(nesting::scan(t2), other);
    lemma_scan_on(t3 + seq![other], rest);
    lemma_scan_on(t2 + seq![other], rest);
}

/// In a block string, three quotation marks after a backslash are like any other character.
pub proof fn escaped_quotes_do_not_end_block_strings(
    code: Seq<char>,
    before: Seq<char>,
    other: char,
    rest: Seq<char>,
)
    requires
        !code.contains('"'),
        !code.contains('#'),
        !before.contains('"'),
        other != '"',
        other != '\\',
    ensures
        nesting::nesting(
            code + seq!['"', '"', '"'] + before + seq!['\\', '"', '"', '"'] + rest,
        ) == nesting::nesting(code + seq!['"', '"', '"'] + before + seq![other] + rest),
{
    let start = nesting::scan(code);
    lemma_code(code);
    nesting_is_at_most_the_openers(code);
    lemma_three_quotes(start);
    let t1 = code + seq!['"', '"', '"'];
    lemma_scan_on(code, seq!['"', '"', '"']);
    let t2 = t1 + before;
    lemma_scan_on(t1, before);
    lemma_block(nesting::scan(t1), before);
    let t3 = t2 + seq!['\\'];
    lemma_scan_on(t2, seq!['\\']);
    lemma_scan_on_one(nesting::scan(t2), '\\');
    let t4 = t3 + seq!['"', '"', '"'];
    lemma_scan_on(t3, seq!['"', '"', '"']);
    lemma_escaped_quotes(nesting::scan(t3));
    assert(t2 + seq!['\\', '"', '"', '"'] =~= t4);
    let u = t2 + seq![other];
    lemma_scan_on(t2, seq![other]);
    lemma_scan_on_one(nesting::scan(t2), other);
    lemma_scan_on(t4, rest);
    lemma_scan_on(u, rest);
}

/// Three quotation marks after a backslash leave the block string where it was.
proof fn lemma_escaped_quotes(start: Scan)
    requires
        start.place == (Place::Block { quotes: 0, escaped: true }),
        start.open <= start.deepest,
    ensures
        scan_on(start, seq!['"', '"', '"']) == (Scan {
            place: Place::Block { quotes: 0, escaped: false },
            ..start
        }),
{
    let one = seq!['"'];
    let two = seq!['"', '"'];
    assert(two =~= one + one);
    assert(seq!['"', '"', '"'] =~= two + one);
    lemma_scan_on_one(start, '"');
    lemma_scan_on_on(start, one, one);
    lemma_scan_on_one(scan_on(start, one), '"');
    lemma_scan_on_on(start, two, one);
    lemma_scan_on_one(scan_on(start, two), '"');
}

/// An empty string does not count either, where no third quotation mark follows.
pub proof fn empty_strings_do_not_count(code: Seq<char>, rest: Seq<char>)
    requires
        !code.contains('"'),
        !code.contains('#'),
        rest.len() > 0 ==> rest[0] != '"',
    ensures
        nesting::nesting(code + seq!['"', '"'] + rest) == nesting::nesting(code + rest),
{
    let start = nesting::scan(code);
    lemma_code(code);
    nesting_is_at_most_the_openers(code);
    let two = seq!['"', '"'];
    assert(two =~= seq!['"'] + seq!['"']);
    lemma_scan_on(code, two);
    lemma_scan_on_on(start, seq!['"'], seq!['"']);
    lemma_scan_on_one(start, '"');
    lemma_scan_on_one(scan_on(start, seq!['"']), '"');
    let ended = nesting::scan(code + two);
    lemma_scan_on(code + two, rest);
    lemma_scan_on(code, rest);
    if rest.len() > 0 {
        let one = seq![rest[0]];
        let more = rest.drop_first();
        assert(rest =~= one + more);
        lemma_scan_on_on(start, one, more);
        lemma_scan_on_on(ended, one, more);
        lemma_scan_on_one(start, rest[0]);
        lemma_scan_on_one(ended, rest[0]);
    } else {
        assert(scan_on(start, rest) == start);
        assert(scan_on(ended, rest) == ended);
    }
}

/// A string that does not end swallows the rest.
pub proof fn unended_strings_do_not_count(code: Seq<char>, s: Seq<char>)
    requires
        !code.contains('"'),
        !code.contains('#'),
        !s.contains('"'),
        !s.contains('\\'),
    ensures
        nesting::nesting(code + seq!['"'] + s) == nesting::nesting(code),
{
    let start = nesting::scan(code);
    lemma_code(code);
    nesting_is_at_most_the_openers(code);
    lemma_scan_on(code, seq!['"']);
    lemma_scan_on_one(start, '"');
    lemma_scan_on(code + seq!['"'], s);
    if s.len() > 0 {
        lemma_string(nesting::scan(code + seq!['"']), s);
    } else {
        assert(code + seq!['"'] + s =~= code + seq!['"']);
    }
}

/// A comment ends with the line, and does not count.
pub proof fn comments_end_with_the_line(
    code: Seq<char>,
    comment: Seq<char>,
    end: char,
    rest: Seq<char>,
)
    requires
        !code.contains('"'),
        !code.contains('#'),
        !comment.contains('\r'),
        !comment.contains('\n'),
        end == '\r' || end == '\n',
    ensures
        nesting::nesting(code + seq!['#'] + comment + seq![end] + rest) == nesting::nesting(
            code + rest,
        ),
{
    let start = nesting::scan(code);
    lemma_code(code);
    nesting_is_at_most_the_openers(code);
    lemma_scan_on(code, seq!['#']);
    lemma_scan_on_one(start, '#');
    let t1 = code + seq!['#'];
    lemma_scan_on(t1, comment);
    lemma_comment(nesting::scan(t1), comment);
    let t2 = t1 + comment;
    lemma_scan_on(t2, seq![end]);
    lemma_scan_on_one(nesting::scan(t2), end);
    assert(nesting::scan(t2 + seq![end]) == start);
    lemma_scan_on(t2 + seq![end], rest);
    lemma_scan_on(code, rest);
}

} // verus!
