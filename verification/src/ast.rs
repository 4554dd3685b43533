//! Type expressions, and the reduction of a parse tree to one.
//!
//! An `Apply` without arguments becomes an identifier and one with arguments
//! a generic type. A `Union` of several terms becomes a union. `Expr`,
//! `Group` and a `Union` of one term only wrap what they hold and leave no
//! node of their own.

use vstd::prelude::*;
use crate::grammar::{
    Rule, BAR, BLANK, COMMA, LEFT_BRACKET, LEFT_PAREN, RIGHT_BRACKET, RIGHT_PAREN,
};
use crate::tree::{fits, lemma_children, nested, ParseTree, Tree};

verus! {

/// The mathematical model of a type expression.
pub enum Ast {
    Identifier { name: Seq<u8> },
    Generic { name: Seq<u8>, arguments: Seq<Ast> },
    Union { alternatives: Seq<Ast> },
}

/// A type expression. Names are held as the bytes of the input that spell
/// them.
#[derive(Debug, PartialEq, Eq)]
pub enum TypeExpr {
    /// A type name, such as `Integer`.
    Identifier { name: Vec<u8> },
    /// A type name applied to arguments, such as `List[Integer]`.
    Generic { name: Vec<u8>, arguments: Vec<TypeExpr> },
    /// Two or more alternatives, such as `Integer | Text`.
    Union { alternatives: Vec<TypeExpr> },
}

impl View for TypeExpr {
    type V = Ast;

    open spec fn view(&self) -> Ast
        decreases self, 0nat,
    {
        match self {
            TypeExpr::Identifier { name } => Ast::Identifier { name: name@ },
            TypeExpr::Generic { name, arguments } => Ast::Generic {
                name: name@,
                arguments: first_models(arguments, arguments@.len()),
            },
            TypeExpr::Union { alternatives } => Ast::Union {
                alternatives: first_models(alternatives, alternatives@.len()),
            },
        }
    }
}

/// The models of the first `n` expressions of `list`.
pub open spec fn first_models(list: &Vec<TypeExpr>, n: nat) -> Seq<Ast>
    decreases list, n,
{
    if 0 < n <= list@.len() {
        first_models(list, (n - 1) as nat).push(list[n - 1]@)
    } else {
        Seq::empty()
    }
}

/// The models of a list of expressions.
pub open spec fn models(list: Seq<TypeExpr>) -> Seq<Ast> {
    Seq::new(list.len(), |i: int| list[i]@)
}

proof fn lemma_first_models(list: &Vec<TypeExpr>, n: nat)
    requires
        n <= list@.len(),
    ensures
        first_models(list, n) == models(list@.take(n as int)),
    decreases n,
{
    let whole = models(list@.take(n as int));
    if n > 0 {
        lemma_first_models(list, (n - 1) as nat);
        let before = models(list@.take(n - 1));
        let last = list[n - 1]@;
        assert(first_models(list, n) == before.push(last));
        assert(whole.len() == n);
        assert forall|i: int| 0 <= i < n implies whole[i] == before.push(last)[i] by {
            assert(whole[i] == list@.take(n as int)[i]@);
            if i < n - 1 {
                assert(before[i] == list@.take(n - 1)[i]@);
            }
        }
        assert(whole =~= before.push(last));
    } else {
        assert(whole =~= Seq::<Ast>::empty());
    }
}

/// The model of a list holds the model of each of its expressions.
pub proof fn lemma_models(list: &Vec<TypeExpr>)
    ensures
        first_models(list, list@.len()) == models(list@),
{
    lemma_first_models(list, list@.len());
    assert(list@.take(list@.len() as int) =~= list@);
}

/// The canonical notation of an expression: a name as it is; a generic type
/// as its name and, in brackets, its arguments with a comma and a blank
/// between them; a union in parentheses, with a bar between blanks between
/// its alternatives.
pub open spec fn written(a: Ast) -> Seq<u8>
    decreases a, 0nat,
{
    match a {
        Ast::Identifier { name } => name,
        Ast::Generic { name, arguments } => name + seq![LEFT_BRACKET] + written_row(
            arguments,
            arguments.len(),
            seq![COMMA, BLANK],
        ) + seq![RIGHT_BRACKET],
        Ast::Union { alternatives } => seq![LEFT_PAREN] + written_row(
            alternatives,
            alternatives.len(),
            seq![BLANK, BAR, BLANK],
        ) + seq![RIGHT_PAREN],
    }
}

/// The canonical notation of the first `n` expressions of `row`, with
/// `between` between two of them.
pub open spec fn written_row(row: Seq<Ast>, n: nat, between: Seq<u8>) -> Seq<u8>
    decreases row, n,
{
    if 1 < n <= row.len() {
        written_row(row, (n - 1) as nat, between) + between + written(row[n - 1])
    } else if n == 1 && n <= row.len() {
        written(row[0])
    } else {
        Seq::empty()
    }
}

/// Adds `bytes` behind `out`.
fn put(out: &mut Vec<u8>, bytes: &Vec<u8>)
    ensures
        final(out)@ == old(out)@ + bytes@,
{
    let mut i: usize = 0;
    while i < bytes.len()
        invariant
            i <= bytes@.len(),
            out@ == old(out)@ + bytes@.take(i as int),
        decreases bytes@.len() - i,
    {
        out.push(bytes[i]);
        i = i + 1;
        proof {
            assert(out@ =~= old(out)@ + bytes@.take(i as int));
        }
    }
    proof {
        assert(bytes@.take(i as int) =~= bytes@);
    }
}

/// The canonical notation of `row`, with `between` between two of its
/// expressions.
fn write_row(row: &Vec<TypeExpr>, between: &Vec<u8>) -> (out: Vec<u8>)
    ensures
        out@ == written_row(models(row@), row@.len(), between@),
    decreases row, 0nat,
{
    let mut out: Vec<u8> = Vec::new();
    let mut k: usize = 0;
    while k < row.len()
        invariant
            k <= row@.len(),
            out@ == written_row(models(row@), k as nat, between@),
        decreases row@.len() - k,
    {
        if k > 0 {
            put(&mut out, between);
        }
        let item = &row[k];
        assert(models(row@)[k as int] == item@);
        let bytes = item.canonical();
        put(&mut out, &bytes);
        k = k + 1;
        proof {
            assert(out@ =~= written_row(models(row@), k as nat, between@));
        }
    }
    out
}

impl TypeExpr {
    /// Writes the expression in canonical notation.
    pub fn canonical(&self) -> (out: Vec<u8>)
        ensures
            out@ == written(self@),
        decreases self, 1nat,
    {
        match self {
            TypeExpr::Identifier { name } => {
                let mut out: Vec<u8> = Vec::new();
                put(&mut out, name);
                proof {
                    assert(out@ =~= name@);
                }
                out
            },
            TypeExpr::Generic { name, arguments } => {
                let mut between: Vec<u8> = Vec::new();
                between.push(COMMA);
                between.push(BLANK);
                let mut out: Vec<u8> = Vec::new();
                put(&mut out, name);
                out.push(LEFT_BRACKET);
                let row = write_row(arguments, &between);
                put(&mut out, &row);
                out.push(RIGHT_BRACKET);
                proof {
                    lemma_models(arguments);
                    assert(between@ =~= seq![COMMA, BLANK]);
                    assert(out@ =~= written(self@));
                }
                out
            },
            TypeExpr::Union { alternatives } => {
                let mut between: Vec<u8> = Vec::new();
                between.push(BLANK);
                between.push(BAR);
                between.push(BLANK);
                let mut out: Vec<u8> = Vec::new();
                out.push(LEFT_PAREN);
                let row = write_row(alternatives, &between);
                put(&mut out, &row);
                out.push(RIGHT_PAREN);
                proof {
                    lemma_models(alternatives);
                    assert(between@ =~= seq![BLANK, BAR, BLANK]);
                    assert(out@ =~= written(self@));
                }
                out
            },
        }
    }
}

/// The bytes of `s` that `t` spans.
pub open spec fn text(s: Seq<u8>, t: Tree) -> Seq<u8> {
    s.subrange(t.start, t.end)
}

/// The type expression that the parse tree `t` over the input `s` stands
/// for.
pub open spec fn ast_of(s: Seq<u8>, t: Tree) -> Ast
    recommends
        fits(t, s.len() as int),
    decreases t, 1nat, 0nat,
{
    match t.rule {
        Rule::Expr | Rule::Group => if t.children.len() == 1 {
            ast_of(s, t.children[0])
        } else {
            Ast::Identifier { name: text(s, t) }
        },
        Rule::Union => if t.children.len() == 1 {
            ast_of(s, t.children[0])
        } else {
            Ast::Union { alternatives: asts_of(s, t, 0, t.children.len()) }
        },
        Rule::Apply => if t.children.len() == 0 {
            Ast::Identifier { name: text(s, t) }
        } else if t.children.len() == 1 {
            Ast::Identifier { name: text(s, t.children[0]) }
        } else {
            Ast::Generic {
                name: text(s, t.children[0]),
                arguments: asts_of(s, t, 1, t.children.len()),
            }
        },
        _ => Ast::Identifier { name: text(s, t) },
    }
}

/// The type expressions that the children `lo..hi` of `t` stand for.
pub open spec fn asts_of(s: Seq<u8>, t: Tree, lo: nat, hi: nat) -> Seq<Ast>
    decreases t, 0nat, hi,
{
    if lo < hi <= t.children.len() {
        asts_of(s, t, lo, (hi - 1) as nat).push(ast_of(s, t.children[hi - 1]))
    } else {
        Seq::empty()
    }
}

/// The bytes `start..end` of `input`.
fn slice(input: &[u8], start: usize, end: usize) -> (out: Vec<u8>)
    requires
        start <= end <= input@.len(),
    ensures
        out@ == input@.subrange(start as int, end as int),
{
    let mut out: Vec<u8> = Vec::new();
    let mut i: usize = start;
    while i < end
        invariant
            start <= i <= end <= input@.len(),
            out@ == input@.subrange(start as int, i as int),
        decreases end - i,
    {
        out.push(input[i]);
        i = i + 1;
        proof {
            assert(out@ =~= input@.subrange(start as int, i as int));
        }
    }
    out
}

/// The expressions that the children of `tree` from index `lo` on stand for.
fn build_from(tree: &ParseTree, input: &[u8], lo: usize) -> (out: Vec<TypeExpr>)
    requires
        fits(tree@, input@.len() as int),
        lo <= tree.children@.len(),
    ensures
        models(out@) == asts_of(input@, tree@, lo as nat, tree.children@.len()),
    decreases tree, 0nat,
{
    let mut out: Vec<TypeExpr> = Vec::new();
    let mut k: usize = lo;
    proof {
        lemma_children(*tree);
        assert(models(out@) =~= Seq::<Ast>::empty());
    }
    while k < tree.children.len()
        invariant
            lo <= k <= tree.children@.len(),
            fits(tree@, input@.len() as int),
            tree@.children == crate::tree::views(tree.children@),
            models(out@) == asts_of(input@, tree@, lo as nat, k as nat),
        decreases tree.children@.len() - k,
    {
        let child = &tree.children[k];
        assert(tree@.children[k as int] == child@);
        let ast = build(child, input);
        proof {
            assert(models(out@.push(ast)) =~= models(out@).push(ast@));
        }
        out.push(ast);
        k = k + 1;
    }
    out
}

/// Reduces a parse tree over `input` to the type expression it stands for.
pub fn build(tree: &ParseTree, input: &[u8]) -> (ast: TypeExpr)
    requires
        fits(tree@, input@.len() as int),
    ensures
        ast@ == ast_of(input@, tree@),
    decreases tree, 1nat,
{
    proof {
        lemma_children(*tree);
    }
    match tree.rule {
        Rule::Expr | Rule::Group => {
            let child = &tree.children[0];
            assert(tree@.children[0] == child@);
            build(child, input)
        },
        Rule::Union => {
            if tree.children.len() == 1 {
                let child = &tree.children[0];
                assert(tree@.children[0] == child@);
                build(child, input)
            } else {
                let alternatives = build_from(tree, input, 0);
                proof {
                    lemma_models(&alternatives);
                }
                TypeExpr::Union { alternatives }
            }
        },
        Rule::Apply => {
            let id = &tree.children[0];
            assert(tree@.children[0] == id@);
            assert(nested(id@));
            let name = slice(input, id.start, id.end);
            if tree.children.len() == 1 {
                TypeExpr::Identifier { name }
            } else {
                let arguments = build_from(tree, input, 1);
                proof {
                    lemma_models(&arguments);
                }
                TypeExpr::Generic { name, arguments }
            }
        },
        _ => TypeExpr::Identifier { name: slice(input, tree.start, tree.end) },
    }
}

} // verus!
