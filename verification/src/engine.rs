//! The matching engine: recursive descent over the bytes of the input, with
//! every function proved to compute what `syntax` defines.

use vstd::prelude::*;
use crate::complete::lemma_complete;
use crate::derivation::{
    all_spelled, blank, closes, derived, gap, gap_at, lemma_gap, lemma_ident_run_holds, lemma_separated_push,
    lemma_skip_space, lemma_spelled_push, separated, spelled,
};
use crate::grammar::{
    ident_start, is_composite, is_ident_start, is_space, skip_ident, skip_space, skip_spaces,
    Expected, Rule, BAR, COMMA, LEFT_BRACKET, LEFT_PAREN, RIGHT_BRACKET, RIGHT_PAREN,
};
use crate::syntax;
use crate::syntax::{Failure, Outcome};
use crate::tree::{
    fits, in_row, lemma_children, lemma_nested, lemma_row_push, lemma_starts_never_fall,
    lemma_views_push, nested, never_falls, shape, starts, views, ParseTree, Tree,
};

verus! {

/// A failed match: the offset it stopped at and the productions that could
/// have continued there.
#[derive(Clone, Copy, Debug, PartialEq, Eq, Structural)]
pub struct ParseError {
    pub pos: usize,
    pub expected: Expected,
}

impl View for ParseError {
    type V = Failure;

    open spec fn view(&self) -> Failure {
        Failure { pos: self.pos as int, expected: self.expected }
    }
}

/// The model of what a function of the engine returns.
pub open spec fn outcome(out: Result<(ParseTree, Expected), ParseError>) -> Outcome {
    match out {
        Ok((tree, open)) => Ok((tree@, open)),
        Err(e) => Err(e@),
    }
}

/// The model of what `AxisParser::parse` returns.
pub open spec fn verdict(out: Result<ParseTree, ParseError>) -> Result<Tree, Failure> {
    match out {
        Ok(tree) => Ok(tree@),
        Err(e) => Err(e@),
    }
}

/// What holds of every result of a match over `s` from offset `i`: a tree
/// starts at the first token at or after `i`, is not empty, is built as the
/// grammar builds trees and spells the bytes it covers; a failure lies at or
/// after `i`, at the end of the input or at a byte that is no white space,
/// and names a production.
pub open spec fn sound(out: Result<(ParseTree, Expected), ParseError>, s: Seq<u8>, i: int) -> bool {
    match out {
        Ok((tree, _)) => {
            &&& tree.start == skip_space(s, i)
            &&& i <= tree.start < tree.end <= s.len()
            &&& nested(tree@)
            &&& spelled(s, tree@)
        },
        Err(e) => {
            &&& i <= e.pos <= s.len()
            &&& e.pos < s.len() ==> !is_space(s[e.pos as int])
            &&& e.expected != Expected::nothing()
        },
    }
}

/// Whether a match, if it gave a tree, gave one of production `a` or `b`.
pub open spec fn gives(out: Result<(ParseTree, Expected), ParseError>, a: Rule, b: Rule) -> bool {
    match out {
        Ok((tree, _)) => tree.rule == a || tree.rule == b,
        Err(_) => true,
    }
}

/// A node of production `rule` over `start..end` with the given children.
fn node(rule: Rule, start: usize, end: usize, children: Vec<ParseTree>) -> (t: ParseTree)
    requires
        start <= end,
        shape(rule, views(children@)),
        in_row(views(children@), start as int, end as int),
    ensures
        t@ == (Tree { rule, start: start as int, end: end as int, children: views(children@) }),
        nested(t@),
        t.rule == rule,
        t.start == start,
        t.end == end,
        t.children == children,
{
    let t = ParseTree { rule, start, end, children };
    proof {
        lemma_children(t);
        lemma_nested(t@);
    }
    t
}

/// A node without children.
fn leaf(rule: Rule, start: usize, end: usize) -> (t: ParseTree)
    requires
        start <= end,
        shape(rule, Seq::empty()),
    ensures
        t@ == (Tree { rule, start: start as int, end: end as int, children: Seq::empty() }),
        nested(t@),
        t.start == start,
        t.end == end,
{
    let children: Vec<ParseTree> = Vec::new();
    proof {
        assert(views(children@) =~= Seq::<Tree>::empty());
    }
    node(rule, start, end, children)
}

/// The list that holds `child` alone.
fn one(child: ParseTree) -> (children: Vec<ParseTree>)
    ensures
        children@ == seq![child],
        views(children@) == seq![child@],
        views(children@)[0].rule == child.rule,
{
    let mut children: Vec<ParseTree> = Vec::new();
    children.push(child);
    proof {
        assert(views(children@) =~= seq![child@]);
    }
    children
}

/// Matches a term from offset `i` on.
fn term(input: &[u8], i: usize) -> (out: Result<(ParseTree, Expected), ParseError>)
    requires
        i <= input@.len(),
    ensures
        outcome(out) == syntax::term(input@, i as int),
        sound(out, input@, i as int),
        gives(out, Rule::Apply, Rule::Group),
        out matches Ok((tree, _)) ==> (tree.rule == Rule::Group <==> input@[tree.start as int]
            == LEFT_PAREN),
    decreases input@.len() - i, 1int,
{
    let j = skip_spaces(input, i);
    proof {
        lemma_skip_space(input@, i as int);
    }
    if j < input.len() && input[j] == LEFT_PAREN {
        group(input, i, j)
    } else if j < input.len() && ident_start(input[j]) {
        apply(input, i, j)
    } else {
        Err(
            ParseError {
                pos: j,
                expected: Expected { id: true, left_paren: true, ..Expected::none() },
            },
        )
    }
}

/// The group whose parenthesis stands at `j`, the first token from `i` on.
fn group(input: &[u8], i: usize, j: usize) -> (out: Result<(ParseTree, Expected), ParseError>)
    requires
        i <= j < input.len(),
        j == skip_space(input@, i as int),
        input@[j as int] == LEFT_PAREN,
    ensures
        outcome(out) == syntax::term(input@, i as int),
        sound(out, input@, i as int),
        gives(out, Rule::Group, Rule::Group),
    decreases input@.len() - j, 0int,
{
    match union_of(input, j + 1) {
        Err(e) => Err(e),
        Ok((inner, open)) => {
            let k = skip_spaces(input, inner.end);
            proof {
                lemma_skip_space(input@, j + 1);
                lemma_skip_space(input@, inner.end as int);
            }
            if k < input.len() && input[k] == RIGHT_PAREN {
                let children = one(inner);
                let tree = node(Rule::Group, j, k + 1, children);
                proof {
                    assert(tree@.children[0] == inner@);
                    assert(closes(input@, inner@.end, RIGHT_PAREN, tree@.end));
                    assert(spelled(input@, tree@));
                }
                Ok((tree, Expected::none()))
            } else {
                Err(ParseError { pos: k, expected: Expected { right_paren: true, ..open } })
            }
        },
    }
}

/// The identifier that starts at `j`, the first token from `i` on, with its
/// arguments if a bracket follows.
fn apply(input: &[u8], i: usize, j: usize) -> (out: Result<(ParseTree, Expected), ParseError>)
    requires
        i <= j < input.len(),
        j == skip_space(input@, i as int),
        is_ident_start(input@[j as int]),
    ensures
        outcome(out) == syntax::term(input@, i as int),
        sound(out, input@, i as int),
        gives(out, Rule::Apply, Rule::Apply),
    decreases input@.len() - j, 0int,
{
    let e = skip_ident(input, j + 1);
    let id = leaf(Rule::Id, j, e);
    proof {
        lemma_ident_run_holds(input@, j + 1);
        assert(spelled(input@, id@));
    }
    let k = skip_spaces(input, e);
    if k < input.len() && input[k] == LEFT_BRACKET {
        let mut children = one(id);
        let mut pos: usize = k + 1;
        proof {
            lemma_skip_space(input@, e as int);
        }
        loop
            invariant
                i <= j < pos <= input@.len(),
                j == skip_space(input@, i as int),
                input@[j as int] != LEFT_PAREN,
                children@.len() >= 1,
                in_row(views(children@), j as int, pos as int),
                shape(Rule::Apply, views(children@)),
                all_spelled(input@, views(children@)),
                views(children@)[0].start == j,
                separated(input@, views(children@), 1, COMMA),
                children@.len() >= 2 ==> gap(
                    input@,
                    views(children@)[0].end,
                    LEFT_BRACKET,
                    views(children@)[1].start,
                ),
                blank(input@, views(children@).last().end, pos - 1),
                input@[pos - 1] == (if children@.len() == 1 {
                    LEFT_BRACKET
                } else {
                    COMMA
                }),
                syntax::term(input@, i as int) == syntax::arguments(
                    input@,
                    j as int,
                    views(children@),
                    pos as int,
                ),
            decreases input@.len() - pos,
        {
            match union_of(input, pos) {
                Err(e) => {
                    return Err(e);
                },
                Ok((arg, open)) => {
                    let end = arg.end;
                    let k = skip_spaces(input, end);
                    proof {
                        let row = views(children@);
                        lemma_skip_space(input@, pos as int);
                        lemma_skip_space(input@, end as int);
                        assert(gap_at(
                            input@,
                            row.last().end,
                            pos - 1,
                            input@[pos - 1],
                            arg.start as int,
                        ));
                        lemma_views_push(children@, arg);
                        lemma_row_push(row, j as int, pos as int, arg@, k as int);
                        lemma_separated_push(input@, row, 1, COMMA, arg@);
                        lemma_spelled_push(input@, row, arg@);
                        assert(row.push(arg@)[0] == row[0]);
                        if row.len() >= 2 {
                            assert(row.push(arg@)[1] == row[1]);
                        }
                    }
                    children.push(arg);
                    if k < input.len() && input[k] == COMMA {
                        pos = k + 1;
                    } else if k < input.len() && input[k] == RIGHT_BRACKET {
                        let tree = node(Rule::Apply, j, k + 1, children);
                        proof {
                            assert(closes(input@, tree@.children.last().end, RIGHT_BRACKET, tree@.end));
                            assert(spelled(input@, tree@));
                        }
                        return Ok((tree, Expected::none()));
                    } else {
                        return Err(
                            ParseError {
                                pos: k,
                                expected: Expected { comma: true, right_bracket: true, ..open },
                            },
                        );
                    }
                },
            }
        }
    } else {
        let children = one(id);
        let tree = node(Rule::Apply, j, e, children);
        proof {
            assert(tree@.children[0] == id@);
            assert(spelled(input@, tree@));
        }
        Ok((tree, Expected { left_bracket: true, ..Expected::none() }))
    }
}

/// Matches a union from offset `i` on.
fn union_of(input: &[u8], i: usize) -> (out: Result<(ParseTree, Expected), ParseError>)
    requires
        i <= input@.len(),
    ensures
        outcome(out) == syntax::union_of(input@, i as int),
        sound(out, input@, i as int),
        gives(out, Rule::Union, Rule::Union),
    decreases input@.len() - i, 2int,
{
    match term(input, i) {
        Err(e) => Err(e),
        Ok((first, behind)) => {
            let start = first.start;
            let mut end: usize = first.end;
            let mut open = behind;
            let mut children = one(first);
            loop
                invariant
                    i <= start < end <= input@.len(),
                    start == skip_space(input@, i as int),
                    children@.len() >= 1,
                    views(children@)[0].start == start,
                    views(children@).last().end == end,
                    in_row(views(children@), start as int, end as int),
                    shape(Rule::Union, views(children@)),
                    all_spelled(input@, views(children@)),
                    separated(input@, views(children@), 0, BAR),
                    syntax::union_of(input@, i as int) == syntax::alternatives(
                        input@,
                        views(children@),
                        end as int,
                        open,
                    ),
                decreases input@.len() - end,
            {
                let k = skip_spaces(input, end);
                if k < input.len() && input[k] == BAR {
                    match term(input, k + 1) {
                        Err(e) => {
                            return Err(e);
                        },
                        Ok((next, more)) => {
                            proof {
                                let row = views(children@);
                                lemma_gap(input@, end as int, BAR);
                                lemma_views_push(children@, next);
                                lemma_row_push(row, start as int, end as int, next@, next.end as int);
                                lemma_separated_push(input@, row, 0, BAR, next@);
                                lemma_spelled_push(input@, row, next@);
                            }
                            end = next.end;
                            open = more;
                            children.push(next);
                        },
                    }
                } else {
                    return Ok((node(Rule::Union, start, end, children), Expected { bar: true, ..open }));
                }
            }
        },
    }
}

/// The grammar of type expressions.
pub struct AxisParser;

impl AxisParser {
    /// Matches `rule` at the start of `input`. `Rule::Expr`, the entry
    /// production, must fill the whole input; every other production matches
    /// a prefix of it.
    ///
    /// A tree that comes back is the one that the grammar defines. It has
    /// `rule` at its root, is built as `nested` says and spells the bytes it
    /// covers as `spelled` says. For `Rule::Expr` its root spans the input
    /// from the first byte to the last. On a walk through the tree in
    /// document order the start offsets never fall.
    ///
    /// A failure lies where the grammar puts it, within the input, and names
    /// a production; for a composite production it never lies on white
    /// space.
    ///
    /// Every derivation of `Rule::Expr` over the input is the tree that
    /// comes back: where the match fails, the input has none.
    pub fn parse(rule: Rule, input: &[u8]) -> (out: Result<ParseTree, ParseError>)
        ensures
            verdict(out) == syntax::matched(rule, input@),
            out matches Ok(tree) ==> tree.rule == rule && fits(tree@, input@.len() as int)
                && spelled(input@, tree@),
            out matches Ok(tree) ==> rule == Rule::Expr ==> tree.start == 0 && tree.end
                == input@.len(),
            out matches Ok(tree) ==> never_falls(starts(tree@)),
            out matches Err(e) ==> e.pos <= input@.len() && e.expected != Expected::nothing(),
            out matches Err(e) ==> is_composite(rule) && e.pos < input@.len() ==> !is_space(
                input@[e.pos as int],
            ),
            rule == Rule::Expr ==> forall|t: Tree|
                t.rule == Rule::Expr && #[trigger] derived(input@, t) ==> verdict(out) == Ok::<
                    Tree,
                    Failure,
                >(t),
    {
        let out = Self::production(rule, input);
        proof {
            if out is Ok {
                lemma_starts_never_fall(out->Ok_0@);
            }
            if rule == Rule::Expr {
                assert forall|t: Tree|
                    t.rule == Rule::Expr && #[trigger] derived(input@, t) implies verdict(out)
                    == Ok::<Tree, Failure>(t) by {
                    lemma_complete(input@, t);
                }
            }
        }
        out
    }

    /// The match itself.
    fn production(rule: Rule, input: &[u8]) -> (out: Result<ParseTree, ParseError>)
        ensures
            verdict(out) == syntax::matched(rule, input@),
            out matches Ok(tree) ==> tree.rule == rule && fits(tree@, input@.len() as int)
                && spelled(input@, tree@),
            out matches Ok(tree) ==> rule == Rule::Expr ==> tree.start == 0 && tree.end
                == input@.len(),
            out matches Err(e) ==> e.pos <= input@.len() && e.expected != Expected::nothing(),
            out matches Err(e) ==> is_composite(rule) && e.pos < input@.len() ==> !is_space(
                input@[e.pos as int],
            ),
    {
        let j = skip_spaces(input, 0);
        proof {
            lemma_skip_space(input@, 0);
        }
        match rule {
            Rule::Expr => match union_of(input, 0) {
                Err(e) => Err(e),
                Ok((inner, open)) => {
                    let k = skip_spaces(input, inner.end);
                    proof {
                        lemma_skip_space(input@, inner.end as int);
                    }
                    if k >= input.len() {
                        let children = one(inner);
                        let tree = node(Rule::Expr, 0, input.len(), children);
                        proof {
                            assert(tree@.children[0] == inner@);
                            assert(spelled(input@, tree@));
                        }
                        Ok(tree)
                    } else {
                        Err(ParseError { pos: k, expected: Expected { end_of_input: true, ..open } })
                    }
                },
            },
            Rule::Union => match union_of(input, 0) {
                Err(e) => Err(e),
                Ok((tree, _)) => Ok(tree),
            },
            Rule::Apply => if j < input.len() && input[j] == LEFT_PAREN {
                Err(ParseError { pos: j, expected: Expected::single(Rule::Id) })
            } else {
                match term(input, 0) {
                    Err(e) => Err(e),
                    Ok((tree, _)) => Ok(tree),
                }
            },
            Rule::Group => if j < input.len() && input[j] == LEFT_PAREN {
                match term(input, 0) {
                    Err(e) => Err(e),
                    Ok((tree, _)) => Ok(tree),
                }
            } else {
                Err(ParseError { pos: j, expected: Expected::single(Rule::LeftParen) })
            },
            Rule::Id => if 0 < input.len() && ident_start(input[0]) {
                let end = skip_ident(input, 1);
                proof {
                    lemma_ident_run_holds(input@, 1);
                }
                Ok(leaf(Rule::Id, 0, end))
            } else {
                Err(ParseError { pos: 0, expected: Expected::single(Rule::Id) })
            },
            Rule::EndOfInput => if input.len() == 0 {
                Ok(leaf(Rule::EndOfInput, 0, 0))
            } else {
                Err(ParseError { pos: 0, expected: Expected::single(Rule::EndOfInput) })
            },
            _ => if 0 < input.len() && token(rule, input[0]) {
                Ok(leaf(rule, 0, 1))
            } else {
                Err(ParseError { pos: 0, expected: Expected::single(rule) })
            },
        }
    }
}

/// Whether `b` is the byte of the token `rule`.
fn token(rule: Rule, b: u8) -> (r: bool)
    ensures
        r == (Some(b) == syntax::token_byte(rule)),
{
    match rule {
        Rule::LeftBracket => b == LEFT_BRACKET,
        Rule::RightBracket => b == RIGHT_BRACKET,
        Rule::LeftParen => b == LEFT_PAREN,
        Rule::RightParen => b == RIGHT_PAREN,
        Rule::Comma => b == COMMA,
        Rule::Bar => b == BAR,
        _ => false,
    }
}

} // verus!
