//! What it means to match a production: the grammar as functions from the
//! input and an offset to a parse tree or to the place where the match stops.
//!
//! Matching never backtracks over a token it has accepted, so the offset of a
//! failure is the furthest one that any attempt reached. Every success also
//! carries the productions that were tried without success at the first
//! token after it; a failure at that token reports them as well.

use vstd::prelude::*;
use crate::grammar::{
    ident_run, is_ident_start, skip_space, Expected, Rule, BAR, COMMA, LEFT_BRACKET, LEFT_PAREN,
    RIGHT_BRACKET, RIGHT_PAREN,
};
use crate::tree::Tree;

verus! {

/// Where a match stopped, and what could have stood there.
pub struct Failure {
    pub pos: int,
    pub expected: Expected,
}

/// A tree with the alternatives left open behind it, or a failure.
pub type Outcome = Result<(Tree, Expected), Failure>;

/// `Term` from offset `i`: a group in parentheses, or an identifier with or
/// without arguments in brackets.
pub open spec fn term(s: Seq<u8>, i: int) -> Outcome
    decreases s.len() - i, 1int,
{
    let j = skip_space(s, i);
    if j < s.len() && s[j] == LEFT_PAREN {
        match union_of(s, j + 1) {
            Err(f) => Err(f),
            Ok((inner, open)) => {
                let k = skip_space(s, inner.end);
                if k < s.len() && s[k] == RIGHT_PAREN {
                    Ok(
                        (
                            Tree { rule: Rule::Group, start: j, end: k + 1, children: seq![inner] },
                            Expected::nothing(),
                        ),
                    )
                } else {
                    Err(Failure { pos: k, expected: Expected { right_paren: true, ..open } })
                }
            },
        }
    } else if j < s.len() && is_ident_start(s[j]) {
        let e = j + 1 + ident_run(s, j + 1);
        let id = Tree { rule: Rule::Id, start: j, end: e, children: Seq::empty() };
        let k = skip_space(s, e);
        if k < s.len() && s[k] == LEFT_BRACKET {
            arguments(s, j, seq![id], k + 1)
        } else {
            Ok(
                (
                    Tree { rule: Rule::Apply, start: j, end: e, children: seq![id] },
                    Expected { left_bracket: true, ..Expected::nothing() },
                ),
            )
        }
    } else {
        Err(Failure { pos: j, expected: Expected { id: true, left_paren: true, ..Expected::nothing() } })
    }
}

/// The arguments of an `Apply` that starts at `start`, from the one at offset
/// `pos` on; `children` holds the identifier and the arguments before it.
/// A match is never empty, so the test `pos < arg.end` always holds: it is
/// there to show that the recursion ends.
pub open spec fn arguments(s: Seq<u8>, start: int, children: Seq<Tree>, pos: int) -> Outcome
    decreases s.len() - pos, 3int,
{
    match union_of(s, pos) {
        Err(f) => Err(f),
        Ok((arg, open)) => {
            let k = skip_space(s, arg.end);
            let all = children.push(arg);
            if k < s.len() && s[k] == COMMA && pos < arg.end {
                arguments(s, start, all, k + 1)
            } else if k < s.len() && s[k] == RIGHT_BRACKET {
                Ok((Tree { rule: Rule::Apply, start, end: k + 1, children: all }, Expected::nothing()))
            } else {
                Err(Failure { pos: k, expected: Expected { comma: true, right_bracket: true, ..open } })
            }
        },
    }
}

/// `Union` from offset `i`: one term, or several with bars between them.
pub open spec fn union_of(s: Seq<u8>, i: int) -> Outcome
    decreases s.len() - i, 2int,
{
    match term(s, i) {
        Err(f) => Err(f),
        Ok((first, open)) => if i < first.end <= s.len() {
            alternatives(s, seq![first], first.end, open)
        } else {
            Ok((Tree { rule: Rule::Union, start: first.start, end: first.end, children: seq![first] }, open))
        },
    }
}

/// The rest of a `Union` whose terms so far are `children`, the last of them
/// ending at `end` with `open` left to try behind it. As in `arguments`, the
/// test on `next.end` always holds.
pub open spec fn alternatives(s: Seq<u8>, children: Seq<Tree>, end: int, open: Expected) -> Outcome
    decreases s.len() - end, 0int,
{
    let k = skip_space(s, end);
    let whole = Tree { rule: Rule::Union, start: children[0].start, end, children };
    if k < s.len() && s[k] == BAR {
        match term(s, k + 1) {
            Err(f) => Err(f),
            Ok((next, more)) => if end < next.end <= s.len() {
                alternatives(s, children.push(next), next.end, more)
            } else {
                Ok((whole, open))
            },
        }
    } else {
        Ok((whole, Expected { bar: true, ..open }))
    }
}

/// `Expr`, the entry production: a union that fills the whole input.
pub open spec fn expr(s: Seq<u8>) -> Result<Tree, Failure> {
    match union_of(s, 0) {
        Err(f) => Err(f),
        Ok((inner, open)) => {
            let k = skip_space(s, inner.end);
            if k >= s.len() {
                Ok(Tree { rule: Rule::Expr, start: 0, end: s.len() as int, children: seq![inner] })
            } else {
                Err(Failure { pos: k, expected: Expected { end_of_input: true, ..open } })
            }
        },
    }
}

/// The byte that a token production stands for.
pub open spec fn token_byte(rule: Rule) -> Option<u8> {
    match rule {
        Rule::LeftBracket => Some(LEFT_BRACKET),
        Rule::RightBracket => Some(RIGHT_BRACKET),
        Rule::LeftParen => Some(LEFT_PAREN),
        Rule::RightParen => Some(RIGHT_PAREN),
        Rule::Comma => Some(COMMA),
        Rule::Bar => Some(BAR),
        _ => None,
    }
}

pub open spec fn leaf(rule: Rule, end: int) -> Tree {
    Tree { rule, start: 0, end, children: Seq::empty() }
}

pub open spec fn forget_open(out: Outcome) -> Result<Tree, Failure> {
    match out {
        Ok((tree, _)) => Ok(tree),
        Err(f) => Err(f),
    }
}

/// The match of `rule` at the start of `s`. `Expr` must fill the input; every
/// other production matches a prefix. `Id` and the tokens are matched at
/// offset 0 itself, the others after leading white space.
pub open spec fn matched(rule: Rule, s: Seq<u8>) -> Result<Tree, Failure> {
    let j = skip_space(s, 0);
    match rule {
        Rule::Expr => expr(s),
        Rule::Union => forget_open(union_of(s, 0)),
        Rule::Apply => if j < s.len() && s[j] == LEFT_PAREN {
            Err(Failure { pos: j, expected: Expected::only(Rule::Id) })
        } else {
            forget_open(term(s, 0))
        },
        Rule::Group => if j < s.len() && s[j] == LEFT_PAREN {
            forget_open(term(s, 0))
        } else {
            Err(Failure { pos: j, expected: Expected::only(Rule::LeftParen) })
        },
        Rule::Id => if 0 < s.len() && is_ident_start(s[0]) {
            Ok(leaf(Rule::Id, (1 + ident_run(s, 1)) as int))
        } else {
            Err(Failure { pos: 0, expected: Expected::only(Rule::Id) })
        },
        Rule::EndOfInput => if s.len() == 0 {
            Ok(leaf(Rule::EndOfInput, 0))
        } else {
            Err(Failure { pos: 0, expected: Expected::only(Rule::EndOfInput) })
        },
        _ => if 0 < s.len() && Some(s[0]) == token_byte(rule) {
            Ok(leaf(rule, 1))
        } else {
            Err(Failure { pos: 0, expected: Expected::only(rule) })
        },
    }
}

} // verus!
