//! How deep the brackets of a GraphQL text nest, so that a text that nests too deep for a parser
//! that recurses can be told before it is parsed.

use vstd::prelude::*;
use vstd::string::*;

verus! {

/// Where a character of a GraphQL text stands.
#[derive(Clone, Copy, Debug, PartialEq, Eq, Structural)]
pub enum Place {
    /// Among the tokens.
    Code,
    /// After one quotation mark, which begins a string or a block string.
    Quote,
    /// After two quotation marks, which are an empty string unless a third follows.
    Quotes,
    /// In a string.
    Text,
    /// In a string, right after a backslash.
    Escape,
    /// In a block string, after so many quotation marks in a row (two at most), before which a
    /// backslash stands or not.
    Block { quotes: u8, escaped: bool },
    /// In a comment.
    Comment,
}

/// Where the character after `c` stands, when `c` stands among the tokens.
pub open spec fn after_code(c: char) -> Place {
    if c == '"' {
        Place::Quote
    } else if c == '#' {
        Place::Comment
    } else {
        Place::Code
    }
}

/// Where the character after `c` stands, when `c` stands in a string.
pub open spec fn after_text(c: char) -> Place {
    if c == '"' {
        Place::Code
    } else if c == '\\' {
        Place::Escape
    } else {
        Place::Text
    }
}

/// Where the character after `c` stands. A block string ends with the first three quotation marks
/// in a row before which no backslash stands; three before which one stands are part of it.
pub open spec fn next_place(place: Place, c: char) -> Place {
    match place {
        Place::Code => after_code(c),
        Place::Quote => if c == '"' {
            Place::Quotes
        } else {
            after_text(c)
        },
        Place::Quotes => if c == '"' {
            Place::Block { quotes: 0, escaped: false }
        } else {
            after_code(c)
        },
        Place::Text => after_text(c),
        Place::Escape => Place::Text,
        Place::Block { quotes, escaped } => if c != '"' {
            Place::Block { quotes: 0, escaped: c == '\\' }
        } else if quotes == 0 {
            Place::Block { quotes: 1, escaped }
        } else if quotes == 1 {
            Place::Block { quotes: 2, escaped }
        } else if escaped {
            Place::Block { quotes: 0, escaped: false }
        } else {
            Place::Code
        },
        Place::Comment => if c == '\r' || c == '\n' {
            Place::Code
        } else {
            Place::Comment
        },
    }
}

/// What is known of a text once it is read.
pub struct Scan {
    /// Where the next character stands.
    pub place: Place,
    /// The number of brackets that are open.
    pub open: nat,
    /// The largest number of brackets that were open at once.
    pub deepest: nat,
}

impl Scan {
    /// What is known once one more character is read.
    pub open spec fn then_reads(self, c: char) -> Scan {
        let in_code = self.place == Place::Code || self.place == Place::Quotes;
        let open = if in_code && (c == '{' || c == '[') {
            self.open + 1
        } else if in_code && (c == '}' || c == ']') && self.open > 0 {
            (self.open - 1) as nat
        } else {
            self.open
        };
        Scan {
            place: next_place(self.place, c),
            open,
            deepest: if open > self.deepest {
                open
            } else {
                self.deepest
            },
        }
    }
}

/// What is known of a text once it is read.
pub open spec fn scan(text: Seq<char>) -> Scan
    decreases text.len(),
{
    if text.len() == 0 {
        Scan { place: Place::Code, open: 0, deepest: 0 }
    } else {
        scan(text.drop_last()).then_reads(text.last())
    }
}

/// The largest number of brackets of lists, objects and sets of fields that are open at once in a
/// text.
pub open spec fn nesting(text: Seq<char>) -> nat {
    scan(text).deepest
}

/// Where the character after `c` stands, when `c` stands among the tokens.
fn leave_code(c: char) -> (next: Place)
    ensures
        next == after_code(c),
{
    if c == '"' {
        Place::Quote
    } else if c == '#' {
        Place::Comment
    } else {
        Place::Code
    }
}

/// Where the character after `c` stands, when `c` stands in a string.
fn leave_text(c: char) -> (next: Place)
    ensures
        next == after_text(c),
{
    if c == '"' {
        Place::Code
    } else if c == '\\' {
        Place::Escape
    } else {
        Place::Text
    }
}

/// Where the character after `c` stands.
fn step(place: Place, c: char) -> (next: Place)
    ensures
        next == next_place(place, c),
{
    match place {
        Place::Code => leave_code(c),
        Place::Quote => if c == '"' {
            Place::Quotes
        } else {
            leave_text(c)
        },
        Place::Quotes => if c == '"' {
            Place::Block { quotes: 0, escaped: false }
        } else {
            leave_code(c)
        },
        Place::Text => leave_text(c),
        Place::Escape => Place::Text,
        Place::Block { quotes, escaped } => if c != '"' {
            Place::Block { quotes: 0, escaped: c == '\\' }
        } else if quotes == 0 {
            Place::Block { quotes: 1, escaped }
        } else if quotes == 1 {
            Place::Block { quotes: 2, escaped }
        } else if escaped {
            Place::Block { quotes: 0, escaped: false }
        } else {
            Place::Code
        },
        Place::Comment => if c == '\r' || c == '\n' {
            Place::Code
        } else {
            Place::Comment
        },
    }
}

/// How deep the brackets of a text nest.
pub fn nesting_of(text: &str) -> (depth: usize)
    ensures
        depth == nesting(text@),
{
    let n: usize = text.unicode_len();
    let mut place = Place::Code;
    let mut open: usize = 0;
    let mut deepest: usize = 0;
    let mut i: usize = 0;
    assert(text@.take(0) =~= Seq::<char>::empty());
    for c in chars: text.chars()
        invariant
            i == chars.index(),
            chars.seq() == text@,
            n == text@.len(),
            open <= i,
            deepest <= i,
            scan(text@.take(i as int)) == (Scan {
                place,
                open: open as nat,
                deepest: deepest as nat,
            }),
    {
        assert(text@.take(i + 1).drop_last() =~= text@.take(i as int));
        assert(text@.take(i + 1).last() == c);
        if place == Place::Code || place == Place::Quotes {
            if c == '{' || c == '[' {
                open = open + 1;
            } else if (c == '}' || c == ']') && open > 0 {
                open = open - 1;
            }
        }
        if open > deepest {
            deepest = open;
        }
        place = step(place, c);
        i = i + 1;
    }
    assert(text@.take(n as int) =~= text@);
    deepest
}

} // verus!
