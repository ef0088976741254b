//! What becomes of the lines of the file of expensive queries.

use crate::nesting;
use crate::queries::{EXPENSIVE_QUERIES, MAX_NESTING};
use crate::queries;
use vstd::prelude::*;

verus! {

/// A file is refused for the first of its lines that is no query, and for no other reason. The
/// operator is told of the file, the error and the line.
pub proof fn the_first_invalid_line_is_told(lines: Seq<Seq<char>>)
    ensures
        queries::queries_of(lines) matches Err(message) ==> exists|k: int|
            0 <= k < lines.len() && (queries::query_outcome(#[trigger] lines[k]) matches Err(error)
                && message == "invalid GraphQL query in "@
                + "/etc/graph-node/expensive-queries.txt"@ + ": "@ + error + "\n"@ + lines[k])
                && forall|j: int|
                0 <= j < k ==> queries::query_outcome(#[trigger] lines[j]) is Ok,
        (forall|k: int| 0 <= k < lines.len() ==> queries::query_outcome(#[trigger] lines[k]) is Ok)
            ==> queries::queries_of(lines) is Ok,
    decreases lines.len(),
{
    if lines.len() > 0 {
        let rest = lines.drop_last();
        let n = lines.len() - 1;
        the_first_invalid_line_is_told(rest);
        queries::accepted_files_hold_every_line(rest);
        assert(forall|i: int| 0 <= i < rest.len() ==> #[trigger] rest[i] == lines[i]);
        assert(lines[n] == lines.last());
        if queries::queries_of(rest) is Err {
            let message = queries::queries_of(rest)->Err_0;
            let k = choose|k: int|
                0 <= k < rest.len() && (queries::query_outcome(
                    #[trigger] rest[k],
                ) matches Err(error) && message == "invalid GraphQL query in "@
                    + "/etc/graph-node/expensive-queries.txt"@ + ": "@ + error + "\n"@ + rest[k])
                    && forall|j: int|
                    0 <= j < k ==> queries::query_outcome(#[trigger] rest[j]) is Ok;
            assert(lines[k] == rest[k]);
            assert forall|j: int| 0 <= j < k implies queries::query_outcome(
                #[trigger] lines[j],
            ) is Ok by {
                assert(rest[j] == lines[j]);
            }
        } else {
            assert forall|j: int| 0 <= j < n implies queries::query_outcome(
                #[trigger] lines[j],
            ) is Ok by {
                assert(rest[j] == lines[j]);
            }
        }
    }
}

/// No lines give no documents, and a query at the end of an accepted file gives one more, which
/// comes last.
pub proof fn queries_are_listed_in_order(lines: Seq<Seq<char>>, line: Seq<char>)
    ensures
        queries::queries_of(Seq::empty()) matches Ok(none) && none.len() == 0,
        queries::queries_of(lines) matches Ok(before) ==> (queries::query_outcome(
            line,
        ) matches Ok(document) ==> (queries::queries_of(lines.push(line)) matches Ok(after)
            && after == before.push(document))),
{
    assert(lines.push(line).drop_last() =~= lines);
}

/// A line is handled if and only if it is a single one and nests 64 deep at most.
pub proof fn single_lines_are_handled(line: Seq<char>)
    ensures
        queries::is_handled(line) <==> !line.contains('\n') && nesting::nesting(line) <= 64,
        EXPENSIVE_QUERIES@ == "/etc/graph-node/expensive-queries.txt"@,
        MAX_NESTING == 64,
{
}

/// The parser gives up if and only if it comes to a line that is not handled: all lines before it
/// are queries.
pub proof fn unhandled_lines_are_met_in_turn(lines: Seq<Seq<char>>, k: int)
    requires
        0 <= k < lines.len(),
        forall|j: int| 0 <= j < k ==> queries::is_handled(#[trigger] lines[j]),
    ensures
        !queries::is_handled(lines[k]) && (forall|j: int|
            0 <= j < k ==> queries::query_outcome(#[trigger] lines[j]) is Ok)
            ==> queries::meets_unhandled(lines),
        queries::query_outcome(lines[k]) is Err && queries::is_handled(lines[k])
            ==> !queries::meets_unhandled(lines),
        k == lines.len() - 1 && queries::is_handled(lines[k]) ==> !queries::meets_unhandled(lines),
        !queries::meets_unhandled(Seq::empty()),
{
    queries::accepted_files_hold_every_line(lines.take(k));
    assert forall|j: int| 0 <= j < k implies lines.take(k)[j] == #[trigger] lines[j] by {
    }
    if !queries::is_handled(lines[k]) && (forall|j: int|
        0 <= j < k ==> queries::query_outcome(#[trigger] lines[j]) is Ok) {
        assert(queries::queries_of(lines.take(k)) is Ok);
    }
    if queries::query_outcome(lines[k]) is Err && queries::is_handled(lines[k])
        && queries::meets_unhandled(lines) {
        let m = choose|m: int|
            0 <= m < lines.len() && !queries::is_handled(#[trigger] lines[m])
                && queries::queries_of(lines.take(m)) is Ok;
        assert(m > k);
        queries::accepted_files_hold_every_line(lines.take(m));
        assert(lines.take(m)[k] == lines[k]);
    }
}

} // verus!
