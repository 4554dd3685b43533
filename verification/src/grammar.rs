//! The productions of the grammar, the byte classes, and the set of
//! productions that a failed match reports.
//!
//! ```text
//! Expr  = Union EndOfInput
//! Union = Term (Bar Term)*
//! Term  = Group | Apply
//! Group = LeftParen Union RightParen
//! Apply = Id (LeftBracket Union (Comma Union)* RightBracket)?
//! Id    = (letter | "_") (letter | digit | "_")*
//! ```
//!
//! Blanks, tabs, carriage returns and line feeds may stand between any two
//! tokens, before the first and after the last.

use vstd::prelude::*;

verus! {

pub const LEFT_PAREN: u8 = 40;

pub const RIGHT_PAREN: u8 = 41;

pub const COMMA: u8 = 44;

pub const LEFT_BRACKET: u8 = 91;

pub const RIGHT_BRACKET: u8 = 93;

pub const BAR: u8 = 124;

pub const LINE_FEED: u8 = 10;

pub const BLANK: u8 = 32;

/// A production of the grammar. The first five give nodes of a parse tree;
/// the others are the single tokens that a diagnostic can name.
#[derive(Clone, Copy, Debug, PartialEq, Eq, Structural, PartialOrd, Ord, Hash)]
pub enum Rule {
    Expr,
    Union,
    Apply,
    Group,
    Id,
    LeftBracket,
    RightBracket,
    LeftParen,
    RightParen,
    Comma,
    Bar,
    EndOfInput,
}

/// Whether `rule` is made of other productions. White space may stand before
/// the first token of such a production; an `Id` or a token must stand at the
/// very offset where it is looked for.
pub open spec fn is_composite(rule: Rule) -> bool {
    rule == Rule::Expr || rule == Rule::Union || rule == Rule::Apply || rule == Rule::Group
}

pub open spec fn is_space(b: u8) -> bool {
    b == 32 || b == 9 || b == 10 || b == 13
}

pub open spec fn is_ident_start(b: u8) -> bool {
    (65 <= b && b <= 90) || (97 <= b && b <= 122) || b == 95
}

pub open spec fn is_ident_part(b: u8) -> bool {
    is_ident_start(b) || (48 <= b && b <= 57)
}

/// The number of white-space bytes that stand at `i` and directly after it.
pub open spec fn space_run(s: Seq<u8>, i: int) -> nat
    decreases s.len() - i,
{
    if 0 <= i < s.len() && is_space(s[i]) {
        1 + space_run(s, i + 1)
    } else {
        0
    }
}

/// The first offset at or after `i` that holds no white space.
pub open spec fn skip_space(s: Seq<u8>, i: int) -> int {
    i + space_run(s, i)
}

/// The number of identifier bytes that stand at `i` and directly after it.
pub open spec fn ident_run(s: Seq<u8>, i: int) -> nat
    decreases s.len() - i,
{
    if 0 <= i < s.len() && is_ident_part(s[i]) {
        1 + ident_run(s, i + 1)
    } else {
        0
    }
}

/// Whether `s` is one identifier and nothing else.
pub open spec fn is_identifier(s: Seq<u8>) -> bool {
    s.len() > 0 && is_ident_start(s[0]) && forall|i: int| 0 < i < s.len() ==> is_ident_part(#[trigger] s[i])
}

/// The productions that could have continued a match at the offset where it
/// stopped. Only tokens and identifiers are ever reported.
#[derive(Clone, Copy, Debug, PartialEq, Eq, Structural)]
pub struct Expected {
    pub id: bool,
    pub left_bracket: bool,
    pub right_bracket: bool,
    pub left_paren: bool,
    pub right_paren: bool,
    pub comma: bool,
    pub bar: bool,
    pub end_of_input: bool,
}

impl Expected {
    pub open spec fn nothing() -> Expected {
        Expected {
            id: false,
            left_bracket: false,
            right_bracket: false,
            left_paren: false,
            right_paren: false,
            comma: false,
            bar: false,
            end_of_input: false,
        }
    }

    pub open spec fn contains(self, rule: Rule) -> bool {
        match rule {
            Rule::Id => self.id,
            Rule::LeftBracket => self.left_bracket,
            Rule::RightBracket => self.right_bracket,
            Rule::LeftParen => self.left_paren,
            Rule::RightParen => self.right_paren,
            Rule::Comma => self.comma,
            Rule::Bar => self.bar,
            Rule::EndOfInput => self.end_of_input,
            _ => false,
        }
    }

    /// The set that holds `rule` alone (empty for a production that is never
    /// reported).
    pub open spec fn only(rule: Rule) -> Expected {
        match rule {
            Rule::Id => Expected { id: true, ..Expected::nothing() },
            Rule::LeftBracket => Expected { left_bracket: true, ..Expected::nothing() },
            Rule::RightBracket => Expected { right_bracket: true, ..Expected::nothing() },
            Rule::LeftParen => Expected { left_paren: true, ..Expected::nothing() },
            Rule::RightParen => Expected { right_paren: true, ..Expected::nothing() },
            Rule::Comma => Expected { comma: true, ..Expected::nothing() },
            Rule::Bar => Expected { bar: true, ..Expected::nothing() },
            Rule::EndOfInput => Expected { end_of_input: true, ..Expected::nothing() },
            _ => Expected::nothing(),
        }
    }

    pub fn none() -> (e: Expected)
        ensures
            e == Expected::nothing(),
    {
        Expected {
            id: false,
            left_bracket: false,
            right_bracket: false,
            left_paren: false,
            right_paren: false,
            comma: false,
            bar: false,
            end_of_input: false,
        }
    }

    pub fn single(rule: Rule) -> (e: Expected)
        ensures
            e == Expected::only(rule),
    {
        let e = Expected::none();
        match rule {
            Rule::Id => Expected { id: true, ..e },
            Rule::LeftBracket => Expected { left_bracket: true, ..e },
            Rule::RightBracket => Expected { right_bracket: true, ..e },
            Rule::LeftParen => Expected { left_paren: true, ..e },
            Rule::RightParen => Expected { right_paren: true, ..e },
            Rule::Comma => Expected { comma: true, ..e },
            Rule::Bar => Expected { bar: true, ..e },
            Rule::EndOfInput => Expected { end_of_input: true, ..e },
            _ => e,
        }
    }
}

pub fn space(b: u8) -> (r: bool)
    ensures
        r == is_space(b),
{
    b == 32 || b == 9 || b == 10 || b == 13
}

pub fn ident_start(b: u8) -> (r: bool)
    ensures
        r == is_ident_start(b),
{
    (65 <= b && b <= 90) || (97 <= b && b <= 122) || b == 95
}

pub fn ident_part(b: u8) -> (r: bool)
    ensures
        r == is_ident_part(b),
{
    ident_start(b) || (48 <= b && b <= 57)
}

/// Steps over white space from `i` on.
pub fn skip_spaces(input: &[u8], i: usize) -> (j: usize)
    requires
        i <= input@.len(),
    ensures
        j == skip_space(input@, i as int),
        i <= j <= input@.len(),
{
    let mut j: usize = i;
    while j < input.len() && space(input[j])
        invariant
            i <= j <= input@.len(),
            skip_space(input@, j as int) == skip_space(input@, i as int),
        decreases input@.len() - j,
    {
        j = j + 1;
    }
    j
}

/// Steps over identifier bytes from `i` on.
pub fn skip_ident(input: &[u8], i: usize) -> (j: usize)
    requires
        i <= input@.len(),
    ensures
        j == i + ident_run(input@, i as int),
        i <= j <= input@.len(),
{
    let mut j: usize = i;
    while j < input.len() && ident_part(input[j])
        invariant
            i <= j <= input@.len(),
            j + ident_run(input@, j as int) == i + ident_run(input@, i as int),
        decreases input@.len() - j,
    {
        j = j + 1;
    }
    j
}

} // verus!
