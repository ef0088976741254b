//! The queries that clients are not allowed to run because they cost too much.

use crate::nesting;
use crate::text;
use graphql_parser::query::Document;
use vstd::prelude::*;
use vstd::string::*;

verus! {

/// The file that lists the queries, one on each line.
pub const EXPENSIVE_QUERIES: &'static str = "/etc/graph-node/expensive-queries.txt";

/// `graphql_parser::query::Document`: a parsed GraphQL document, which is only carried along.
#[verifier::external_type_specification]
#[verifier::external_body]
pub struct ExDocument(graphql_parser::query::Document);

/// What `graphql_parser::parse_query` makes of a text: the document, or the text of the error.
pub uninterp spec fn query_outcome(text: Seq<char>) -> Result<
    graphql_parser::query::Document,
    Seq<char>,
>;

/// A line of the file that is not a query.
#[derive(Debug)]
pub struct InvalidQuery {
    pub message: String,
}

/// Whether a text is a single line.
pub open spec fn is_line(text: Seq<char>) -> bool {
    !text.contains('\n')
}

/// The deepest nesting of brackets that is handled.
pub const MAX_NESTING: usize = 64;

/// Whether a text is a single line whose brackets do not nest too deep.
pub open spec fn is_handled(text: Seq<char>) -> bool {
    is_line(text) && nesting::nesting(text) <= MAX_NESTING
}

/// `graphql_parser::parse_query`, with an error given as its text. The claim is that both depend
/// on the text alone. The parser strips the indentation of block strings by byte offsets, which
/// panics on some that span lines; a single line has no such string. It recurses once for each
/// bracket of a list, an object, a type or a set of fields that is open, and takes about 24 kB of
/// stack each time when it is not optimized; `MAX_NESTING` levels fit into the two megabytes that
/// a thread has. It also prints a line for each floating-point number that it
/// reads, which fails where the standard output was a pipe that is closed.
#[verifier::external_body]
fn parse_query(line: &str) -> (outcome: Result<Document, String>)
    requires
        is_handled(line@),
    ensures
        match outcome {
            Ok(document) => query_outcome(line@) == Ok::<Document, Seq<char>>(document),
            Err(error) => query_outcome(line@) == Err::<Document, Seq<char>>(error@),
        },
{
    match graphql_parser::parse_query(line) {
        Ok(document) => Ok(document),
        Err(error) => Err(error.to_string()),
    }
}

/// What the operator is told of a line that is not a query.
pub open spec fn invalid_query_text(error: Seq<char>, line: Seq<char>) -> Seq<char> {
    "invalid GraphQL query in "@ + EXPENSIVE_QUERIES@ + ": "@ + error + "\n"@ + line
}

/// The documents of a list of lines, or what is said of the first line that is not a query.
pub open spec fn queries_of(lines: Seq<Seq<char>>) -> Result<Seq<Document>, Seq<char>>
    decreases lines.len(),
{
    if lines.len() == 0 {
        Ok(Seq::empty())
    } else {
        match queries_of(lines.drop_last()) {
            Err(message) => Err(message),
            Ok(queries) => match query_outcome(lines.last()) {
                Ok(document) => Ok(queries.push(document)),
                Err(error) => Err(invalid_query_text(error, lines.last())),
            },
        }
    }
}

/// Takes what the parser made of a line into the list: a document goes to the end, an error
/// leaves the list as it was and is reported together with the line.
pub fn record_query(
    queries: &mut Vec<Document>,
    line: &str,
    outcome: Result<Document, String>,
) -> (recorded: Result<(), InvalidQuery>)
    ensures
        match outcome {
            Ok(document) => recorded is Ok && final(queries)@ == old(queries)@.push(document),
            Err(error) => recorded matches Err(invalid) && invalid.message@ == invalid_query_text(
                error@,
                line@,
            ) && final(queries)@ == old(queries)@,
        },
{
    match outcome {
        Ok(document) => {
            queries.push(document);
            Ok(())
        },
        Err(error) => {
            let message = "invalid GraphQL query in ".to_string().concat(EXPENSIVE_QUERIES).concat(
                ": ",
            ).concat(error.as_str()).concat("\n").concat(line);
            Err(InvalidQuery { message })
        },
    }
}

/// Whether the parser comes to a line that is not handled, before it comes to one that is not a
/// query.
pub open spec fn meets_unhandled(lines: Seq<Seq<char>>) -> bool {
    exists|k: int|
        0 <= k < lines.len() && !is_handled(#[trigger] lines[k]) && queries_of(lines.take(k)) is Ok
}

/// Parses the lines of the file, in order, up to the first that is not a query. Gives up where it
/// comes to one that is not a single line or nests too deep.
pub fn parse_expensive_queries(lines: &Vec<String>) -> (parsed: Option<
    Result<Vec<Document>, InvalidQuery>,
>)
    ensures
        parsed is None <==> meets_unhandled(text::views(lines@)),
        match parsed {
            Some(Ok(queries)) => queries_of(text::views(lines@)) == Ok::<_, Seq<char>>(queries@),
            Some(Err(invalid)) => queries_of(text::views(lines@)) == Err::<Seq<Document>, _>(
                invalid.message@,
            ),
            None => true,
        },
{
    let ghost all = text::views(lines@);
    let mut queries: Vec<Document> = Vec::new();
    let mut i: usize = 0;
    assert(all.take(0) =~= Seq::<Seq<char>>::empty());
    while i < lines.len()
        invariant
            i <= lines@.len(),
            all == text::views(lines@),
            forall|k: int| 0 <= k < i ==> is_handled(#[trigger] all[k]),
            queries_of(all.take(i as int)) == Ok::<_, Seq<char>>(queries@),
        decreases lines.len() - i,
    {
        assert(all.take(i + 1).drop_last() =~= all.take(i as int));
        assert(all.take(i + 1).last() == lines@[i as int]@);
        assert(all[i as int] == lines@[i as int]@);
        let line = lines[i].as_str();
        if text::find(line, '\n').is_some() || nesting::nesting_of(line) > MAX_NESTING {
            assert(!is_handled(all[i as int]));
            return None;
        }
        match record_query(&mut queries, line, parse_query(line)) {
            Ok(()) => {},
            Err(invalid) => {
                proof {
                    first_invalid_line_decides(all, i + 1);
                    lemma_stops(all, i + 1);
                }
                return Some(Err(invalid));
            },
        }
        i = i + 1;
    }
    assert(all.take(i as int) =~= all);
    Some(Ok(queries))
}

/// Once the first `n` lines are refused and handled, the parser comes to no line after them.
proof fn lemma_stops(lines: Seq<Seq<char>>, n: int)
    requires
        0 <= n <= lines.len(),
        queries_of(lines.take(n)) is Err,
        forall|k: int| 0 <= k < n ==> is_handled(#[trigger] lines[k]),
    ensures
        !meets_unhandled(lines),
{
    assert forall|k: int| 0 <= k < lines.len() && !is_handled(#[trigger] lines[k]) implies queries_of(
        lines.take(k),
    ) is Err by {
        assert(lines.take(k).take(n) =~= lines.take(n));
        first_invalid_line_decides(lines.take(k), n);
    }
}

/// Lines after the first that is not a query have no influence, whatever they are.
pub proof fn later_lines_do_not_matter(lines: Seq<Seq<char>>, more: Seq<Seq<char>>)
    requires
        queries_of(lines) is Err,
    ensures
        queries_of(lines + more) == queries_of(lines),
        meets_unhandled(lines + more) <==> meets_unhandled(lines),
{
    let all = lines + more;
    let n = lines.len() as int;
    assert(all.take(n) =~= lines);
    first_invalid_line_decides(all, n);
    if meets_unhandled(lines) {
        let k = choose|k: int|
            0 <= k < lines.len() && !is_handled(#[trigger] lines[k]) && queries_of(
                lines.take(k),
            ) is Ok;
        assert(all[k] == lines[k]);
        assert(all.take(k) =~= lines.take(k));
    }
    if meets_unhandled(all) {
        let k = choose|k: int|
            0 <= k < all.len() && !is_handled(#[trigger] all[k]) && queries_of(all.take(k)) is Ok;
        if k >= n {
            assert(all.take(k).take(n) =~= lines);
            first_invalid_line_decides(all.take(k), n);
        }
        assert(all[k] == lines[k]);
        assert(all.take(k) =~= lines.take(k));
    }
}

/// One more query at the end of an accepted file adds its document at the end.
pub proof fn appended_queries_come_last(lines: Seq<Seq<char>>, line: Seq<char>)
    requires
        queries_of(lines) is Ok,
        !meets_unhandled(lines),
    ensures
        query_outcome(line) matches Ok(document) ==> queries_of(lines.push(line)) == Ok::<
            _,
            Seq<char>,
        >(queries_of(lines)->Ok_0.push(document)),
        meets_unhandled(lines.push(line)) <==> !is_handled(line),
{
    let all = lines.push(line);
    assert(all.drop_last() =~= lines);
    if !is_handled(line) {
        assert(all[lines.len() as int] == line);
        assert(all.take(lines.len() as int) =~= lines);
    }
    if meets_unhandled(all) {
        let k = choose|k: int|
            0 <= k < all.len() && !is_handled(#[trigger] all[k]) && queries_of(all.take(k)) is Ok;
        if k < lines.len() {
            assert(lines[k] == all[k]);
            assert(lines.take(k) =~= all.take(k));
        }
    }
}

/// Once the first `n` lines are refused, so is the whole file, with the same message.
pub proof fn first_invalid_line_decides(lines: Seq<Seq<char>>, n: int)
    requires
        0 <= n <= lines.len(),
        queries_of(lines.take(n)) is Err,
    ensures
        queries_of(lines) == queries_of(lines.take(n)),
    decreases lines.len() - n,
{
    if n == lines.len() {
        assert(lines.take(n) =~= lines);
    } else {
        assert(lines.take(n + 1).drop_last() =~= lines.take(n));
        first_invalid_line_decides(lines, n + 1);
    }
}

/// The file is accepted if and only if every line is a query; and then there is one document for
/// each line, in the order of the lines.
pub proof fn accepted_files_hold_every_line(lines: Seq<Seq<char>>)
    ensures
        queries_of(lines) is Ok <==> forall|i: int|
            0 <= i < lines.len() ==> query_outcome(#[trigger] lines[i]) is Ok,
        queries_of(lines) matches Ok(queries) ==> queries.len() == lines.len() && forall|i: int|
            0 <= i < lines.len() ==> query_outcome(#[trigger] lines[i]) == Ok::<_, Seq<char>>(
                queries[i],
            ),
    decreases lines.len(),
{
    if lines.len() > 0 {
        let rest = lines.drop_last();
        accepted_files_hold_every_line(rest);
        assert(forall|i: int| 0 <= i < rest.len() ==> #[trigger] rest[i] == lines[i]);
        assert(lines[lines.len() - 1] == lines.last());
        if queries_of(lines) is Ok {
            let before = queries_of(rest)->Ok_0;
            let queries = queries_of(lines)->Ok_0;
            assert forall|i: int| 0 <= i < lines.len() implies query_outcome(#[trigger] lines[i])
                == Ok::<_, Seq<char>>(queries[i]) by {
                if i < rest.len() {
                    assert(rest[i] == lines[i]);
                    assert(queries[i] == before[i]);
                }
            }
        } else if forall|i: int|
            0 <= i < lines.len() ==> query_outcome(#[trigger] lines[i]) is Ok {
            assert(forall|i: int|
                0 <= i < rest.len() ==> query_outcome(#[trigger] rest[i]) is Ok);
        }
    }
}

} // verus!
