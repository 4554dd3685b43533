//! The one operation that callers need: from the text of a type expression
//! to the expression itself, or to a diagnostic.

use vstd::prelude::*;
use vstd::string::*;
use vstd::utf8::encode_utf8;
use crate::ast::{ast_of, build, Ast, TypeExpr};
use crate::derivation::derived;
use crate::diagnostic::{diagnosis, translate, Diagnostic, Report};
use crate::engine::AxisParser;
use crate::grammar::Rule;
use crate::syntax::matched;
use crate::tree::Tree;

verus! {

/// What parsing the bytes `s` gives: the expression that the tree of the
/// entry production stands for, or the diagnostic of its failure.
pub open spec fn parsed(s: Seq<u8>) -> Result<Ast, Report> {
    match matched(Rule::Expr, s) {
        Ok(tree) => Ok(ast_of(s, tree)),
        Err(f) => Err(diagnosis(f, s)),
    }
}

/// Whether the bytes `s` are a type expression: the entry production has a
/// derivation over them.
pub open spec fn is_type_expression(s: Seq<u8>) -> bool {
    exists|t: Tree| t.rule == Rule::Expr && #[trigger] derived(s, t)
}

/// The model of a result of parsing.
pub open spec fn answer(out: Result<TypeExpr, Diagnostic>) -> Result<Ast, Report> {
    match out {
        Ok(ast) => Ok(ast@),
        Err(d) => Err(d@),
    }
}

/// Parses the bytes of a type expression. The result is an expression
/// exactly if the bytes are a type expression, and then the one that every
/// derivation of the entry production over them stands for; else it is the
/// diagnostic of the place where they stop being one.
pub fn parse_bytes(input: &[u8]) -> (out: Result<TypeExpr, Diagnostic>)
    ensures
        answer(out) == parsed(input@),
        out is Ok <==> is_type_expression(input@),
        forall|t: Tree|
            t.rule == Rule::Expr && #[trigger] derived(input@, t) ==> answer(out) == Ok::<
                Ast,
                Report,
            >(ast_of(input@, t)),
{
    match AxisParser::parse(Rule::Expr, input) {
        Ok(tree) => {
            assert(derived(input@, tree@));
            Ok(build(&tree, input))
        },
        Err(e) => Err(translate(&e, input)),
    }
}

/// Parses a type expression. The result is a function of the bytes of
/// `input` alone: the expression exactly if they are a type expression, and
/// else the diagnostic of the place where they stop being one.
pub fn parse_type_expr(input: String) -> (out: Result<TypeExpr, Diagnostic>)
    ensures
        answer(out) == parsed(encode_utf8(input@)),
        out is Ok <==> is_type_expression(encode_utf8(input@)),
        forall|t: Tree|
            t.rule == Rule::Expr && #[trigger] derived(encode_utf8(input@), t) ==> answer(out)
                == Ok::<Ast, Report>(ast_of(encode_utf8(input@), t)),
{
    parse_bytes(input.as_str().as_bytes())
}

} // verus!
