//! What holds of the grammar and of parsing, whatever the input.

use vstd::prelude::*;
use crate::ast::{ast_of, text, Ast, TypeExpr};
use crate::diagnostic::{diagnosis, Diagnostic};
use crate::entry::{answer, parsed};
use crate::complete::lemma_run_to;
use crate::grammar::{is_identifier, skip_space, space_run, Expected, Rule};
use crate::syntax::{alternatives, expr, leaf, matched, term, union_of, Failure};
use crate::tree::Tree;

verus! {

/// Matching `Id` against an identifier gives a leaf that spans all of it, and
/// the leaf stands for the identifier of that name: no byte is lost.
pub proof fn lemma_identifier_round_trip(s: Seq<u8>)
    requires
        is_identifier(s),
    ensures
        matched(Rule::Id, s) == Ok::<Tree, Failure>(leaf(Rule::Id, s.len() as int)),
        ast_of(s, leaf(Rule::Id, s.len() as int)) == (Ast::Identifier { name: s }),
{
    lemma_run_to(s, 1, s.len() as int);
    assert(text(s, leaf(Rule::Id, s.len() as int)) =~= s);
}

/// Parsing an identifier gives the identifier of that name.
pub proof fn lemma_identifier_parses(s: Seq<u8>)
    requires
        is_identifier(s),
    ensures
        parsed(s) == Ok::<Ast, crate::diagnostic::Report>(Ast::Identifier { name: s }),
{
    let n = s.len() as int;
    lemma_run_to(s, 1, s.len() as int);
    assert(space_run(s, 0) == 0);
    assert(space_run(s, n) == 0);
    let id = Tree { rule: Rule::Id, start: 0, end: n, children: Seq::empty() };
    let apply = Tree { rule: Rule::Apply, start: 0, end: n, children: seq![id] };
    let open = Expected { left_bracket: true, ..Expected::nothing() };
    assert(term(s, 0) == Ok::<(Tree, Expected), Failure>((apply, open)));
    let whole = Tree { rule: Rule::Union, start: 0, end: n, children: seq![apply] };
    assert(alternatives(s, seq![apply], n, open) == Ok::<(Tree, Expected), Failure>(
        (whole, Expected { bar: true, ..open }),
    ));
    assert(union_of(s, 0) == Ok::<(Tree, Expected), Failure>((whole, Expected { bar: true, ..open })));
    let root = Tree { rule: Rule::Expr, start: 0, end: n, children: seq![whole] };
    assert(expr(s) == Ok::<Tree, Failure>(root));
    assert(text(s, id) =~= s);
    assert(ast_of(s, apply) == (Ast::Identifier { name: s }));
    assert(ast_of(s, whole) == ast_of(s, apply));
    assert(ast_of(s, root) == ast_of(s, whole));
}

/// A tree of the entry production spans the input from its first byte to
/// its last.
pub proof fn lemma_entry_fills_input(s: Seq<u8>)
    ensures
        matched(Rule::Expr, s) matches Ok(tree) ==> tree.rule == Rule::Expr && tree.start == 0
            && tree.end == s.len(),
{
}

/// Two results of parsing the same bytes are the same expression or the
/// same diagnostic.
pub proof fn lemma_deterministic(
    s: Seq<u8>,
    a: Result<TypeExpr, Diagnostic>,
    b: Result<TypeExpr, Diagnostic>,
)
    requires
        answer(a) == parsed(s),
        answer(b) == parsed(s),
    ensures
        answer(a) == answer(b),
{
}

/// The empty input is no type expression: parsing it fails at offset 0,
/// where an identifier or a parenthesis should have stood.
pub proof fn lemma_empty_fails()
    ensures
        parsed(Seq::<u8>::empty()) == Err::<Ast, crate::diagnostic::Report>(
            diagnosis(
                Failure {
                    pos: 0,
                    expected: Expected { id: true, left_paren: true, ..Expected::nothing() },
                },
                Seq::<u8>::empty(),
            ),
        ),
{
    let s = Seq::<u8>::empty();
    assert(skip_space(s, 0) == 0);
    assert(term(s, 0) is Err);
    assert(union_of(s, 0) is Err);
}

} // verus!
