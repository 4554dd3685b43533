//! Completeness of matching: a tree that is built as the grammar builds
//! trees and spells the bytes it covers is the tree that matching gives.
//! With what `AxisParser::parse` ensures, an input is a type expression
//! exactly if such a tree of the entry production exists, and there is only
//! one.

use vstd::prelude::*;
use crate::derivation::{blank, closes, derived, gap, gap_at, gap_behind, spelled};
use crate::grammar::{
    ident_run, is_ident_part, is_space, skip_space, Expected, Rule, BAR, COMMA, LEFT_BRACKET,
    LEFT_PAREN, RIGHT_BRACKET, RIGHT_PAREN,
};
use crate::syntax::{alternatives, arguments, expr, matched, term, union_of, Failure};
use crate::tree::{nested, Tree};

verus! {

/// The alternatives that matching leaves open behind the tree `t`: a bracket
/// behind an identifier without arguments, a bar behind a union.
pub open spec fn open_behind(t: Tree) -> Expected
    decreases t,
{
    match t.rule {
        Rule::Apply => if t.children.len() == 1 {
            Expected { left_bracket: true, ..Expected::nothing() }
        } else {
            Expected::nothing()
        },
        Rule::Union => if t.children.len() >= 1 {
            Expected { bar: true, ..open_behind(t.children.last()) }
        } else {
            Expected::nothing()
        },
        _ => Expected::nothing(),
    }
}

/// Whether the first token of `s` from offset `e` on is the byte `b`.
pub open spec fn next_is(s: Seq<u8>, e: int, b: u8) -> bool {
    skip_space(s, e) < s.len() && s[skip_space(s, e)] == b
}

/// White space up to a byte that is none is what skipping passes over.
pub proof fn lemma_skip_to(s: Seq<u8>, a: int, b: int)
    requires
        blank(s, a, b),
        b < s.len() ==> !is_space(s[b]),
    ensures
        skip_space(s, a) == b,
    decreases b - a,
{
    if a < b {
        assert(is_space(s[a]));
        assert(blank(s, a + 1, b));
        lemma_skip_to(s, a + 1, b);
    }
}

/// Identifier bytes up to a byte that is none are a whole run.
pub proof fn lemma_run_to(s: Seq<u8>, a: int, e: int)
    requires
        0 <= a <= e <= s.len(),
        forall|i: int| a <= i < e ==> is_ident_part(#[trigger] s[i]),
        e < s.len() ==> !is_ident_part(s[e]),
    ensures
        a + ident_run(s, a) == e,
    decreases e - a,
{
    if a < e {
        assert(is_ident_part(s[a]));
        lemma_run_to(s, a + 1, e);
    }
}

/// In a gap, the separator is the first token and what follows the gap is
/// the next one.
pub proof fn lemma_gap_skip(s: Seq<u8>, a: int, sep: u8, b: int)
    requires
        gap(s, a, sep, b),
        !is_space(sep),
        b < s.len() ==> !is_space(s[b]),
    ensures
        next_is(s, a, sep),
        a <= skip_space(s, a) < b,
        skip_space(s, skip_space(s, a) + 1) == b,
        blank(s, skip_space(s, a) + 1, b),
{
    let k = choose|k: int| gap_at(s, a, k, sep, b);
    lemma_skip_to(s, a, k);
    lemma_skip_to(s, k + 1, b);
}

/// Before a closing token, that token is the first one.
pub proof fn lemma_closes_skip(s: Seq<u8>, a: int, sep: u8, end: int)
    requires
        closes(s, a, sep, end),
        !is_space(sep),
        end <= s.len(),
    ensures
        next_is(s, a, sep),
        skip_space(s, a) == end - 1,
{
    lemma_skip_to(s, a, end - 1);
}

/// A tree of `Union`, `Apply`, `Group` or `Id` is not empty and starts with
/// a byte that is no white space.
pub proof fn lemma_first_byte(s: Seq<u8>, t: Tree)
    requires
        derived(s, t),
        t.rule == Rule::Union || t.rule == Rule::Apply || t.rule == Rule::Group || t.rule
            == Rule::Id,
    ensures
        0 <= t.start < t.end <= s.len(),
        !is_space(s[t.start]),
    decreases t,
{
    if t.rule == Rule::Union || t.rule == Rule::Apply {
        let first = t.children[0];
        assert(nested(first) && spelled(s, first));
        assert(first.end <= t.end);
        lemma_first_byte(s, first);
    }
}

/// A term that is followed by no bracket where it is an identifier without
/// arguments is what matching a term gives.
pub proof fn lemma_term(s: Seq<u8>, i: int, t: Tree)
    requires
        derived(s, t),
        t.rule == Rule::Apply || t.rule == Rule::Group,
        blank(s, i, t.start),
        t.rule == Rule::Apply && t.children.len() == 1 ==> !next_is(s, t.end, LEFT_BRACKET),
    ensures
        term(s, i) == Ok::<(Tree, Expected), Failure>((t, open_behind(t))),
    decreases t, 2nat, 0nat,
{
    lemma_first_byte(s, t);
    lemma_skip_to(s, i, t.start);
    let j = t.start;
    let first = t.children[0];
    assert(nested(first) && spelled(s, first));
    if t.rule == Rule::Group {
        lemma_first_byte(s, first);
        lemma_closes_skip(s, first.end, RIGHT_PAREN, t.end);
        lemma_union(s, j + 1, first);
        assert(t.children =~= seq![first]);
    } else {
        lemma_run_to(s, j + 1, first.end);
        assert(first.children =~= Seq::<Tree>::empty());
        let id = Tree { rule: Rule::Id, start: j, end: first.end, children: Seq::empty() };
        assert(first == id);
        if t.children.len() == 1 {
            assert(t.children =~= seq![first]);
        } else {
            let second = t.children[1];
            assert(nested(second) && spelled(s, second));
            lemma_first_byte(s, second);
            lemma_gap_skip(s, first.end, LEFT_BRACKET, second.start);
            lemma_arguments(s, t, 1);
            assert(t.children.take(1) =~= seq![first]);
        }
    }
}

/// The arguments of `t` from the one at index `n` on are what matching them
/// gives.
pub proof fn lemma_arguments(s: Seq<u8>, t: Tree, n: int)
    requires
        derived(s, t),
        t.rule == Rule::Apply,
        1 <= n < t.children.len(),
        blank(s, skip_space(s, t.children[n - 1].end) + 1, t.children[n].start),
    ensures
        arguments(s, t.start, t.children.take(n), skip_space(s, t.children[n - 1].end) + 1) == Ok::<
            (Tree, Expected),
            Failure,
        >((t, Expected::nothing())),
    decreases t, 1nat, t.children.len() - n,
{
    let pos = skip_space(s, t.children[n - 1].end) + 1;
    let arg = t.children[n];
    assert(nested(arg) && spelled(s, arg));
    assert(arg.rule == Rule::Union);
    lemma_first_byte(s, arg);
    assert(t.children[n - 1].end <= arg.start);
    if n < t.children.len() - 1 {
        let next = t.children[n + 1];
        assert(nested(next) && spelled(s, next));
        assert(next.rule == Rule::Union);
        lemma_first_byte(s, next);
        assert(gap_behind(s, t.children, n, COMMA));
        lemma_gap_skip(s, arg.end, COMMA, next.start);
        lemma_union(s, pos, arg);
        lemma_arguments(s, t, n + 1);
        assert(t.children.take(n).push(arg) =~= t.children.take(n + 1));
    } else {
        assert(arg == t.children.last());
        lemma_closes_skip(s, arg.end, RIGHT_BRACKET, t.end);
        lemma_union(s, pos, arg);
        assert(t.children.take(n).push(arg) =~= t.children);
    }
}

/// A union that is followed by neither a bar nor a bracket is what matching
/// a union gives.
pub proof fn lemma_union(s: Seq<u8>, i: int, t: Tree)
    requires
        derived(s, t),
        t.rule == Rule::Union,
        blank(s, i, t.start),
        !next_is(s, t.end, BAR),
        !next_is(s, t.end, LEFT_BRACKET),
    ensures
        union_of(s, i) == Ok::<(Tree, Expected), Failure>((t, open_behind(t))),
    decreases t, 2nat, 0nat,
{
    let first = t.children[0];
    assert(nested(first) && spelled(s, first));
    lemma_first_byte(s, first);
    lemma_first_byte(s, t);
    if t.children.len() > 1 {
        let next = t.children[1];
        assert(nested(next) && spelled(s, next));
        lemma_first_byte(s, next);
        assert(gap_behind(s, t.children, 0, BAR));
        lemma_gap_skip(s, first.end, BAR, next.start);
    }
    lemma_term(s, i, first);
    lemma_alternatives(s, t, 1);
    assert(t.children.take(1) =~= seq![first]);
}

/// The terms of `t` from the one at index `n` on are what matching them
/// gives.
pub proof fn lemma_alternatives(s: Seq<u8>, t: Tree, n: int)
    requires
        derived(s, t),
        t.rule == Rule::Union,
        1 <= n <= t.children.len(),
        !next_is(s, t.end, BAR),
        !next_is(s, t.end, LEFT_BRACKET),
    ensures
        alternatives(s, t.children.take(n), t.children[n - 1].end, open_behind(t.children[n - 1]))
            == Ok::<(Tree, Expected), Failure>((t, open_behind(t))),
    decreases t, 1nat, t.children.len() - n,
{
    let last = t.children[n - 1];
    let row = t.children.take(n);
    assert(row[0] == t.children[0]);
    if n < t.children.len() {
        let next = t.children[n];
        assert(nested(next) && spelled(s, next));
        assert(nested(last) && spelled(s, last));
        lemma_first_byte(s, next);
        lemma_first_byte(s, last);
        assert(gap_behind(s, t.children, n - 1, BAR));
        lemma_gap_skip(s, last.end, BAR, next.start);
        if n + 1 < t.children.len() {
            let after = t.children[n + 1];
            assert(nested(after) && spelled(s, after));
            lemma_first_byte(s, after);
            assert(gap_behind(s, t.children, n, BAR));
            lemma_gap_skip(s, next.end, BAR, after.start);
        } else {
            assert(next == t.children.last());
        }
        lemma_term(s, skip_space(s, last.end) + 1, next);
        lemma_alternatives(s, t, n + 1);
        assert(row.push(next) =~= t.children.take(n + 1));
        assert(last.end <= next.start);
    } else {
        assert(row =~= t.children);
        assert(last == t.children.last());
    }
}

/// A tree of the entry production that is built as the grammar builds trees
/// and spells the input is the tree that matching the entry production
/// gives: matching finds every type expression, and no input is one in two
/// ways.
pub proof fn lemma_complete(s: Seq<u8>, t: Tree)
    requires
        derived(s, t),
        t.rule == Rule::Expr,
    ensures
        matched(Rule::Expr, s) == Ok::<Tree, Failure>(t),
{
    let inner = t.children[0];
    assert(nested(inner) && spelled(s, inner));
    lemma_first_byte(s, inner);
    lemma_skip_to(s, inner.end, s.len() as int);
    lemma_union(s, 0, inner);
    assert(t.children =~= seq![inner]);
    assert(expr(s) == Ok::<Tree, Failure>(t));
}

/// Where matching the entry production fails, no tree of it spells the
/// input.
pub proof fn lemma_failure_is_final(s: Seq<u8>, t: Tree)
    requires
        matched(Rule::Expr, s) is Err,
        t.rule == Rule::Expr,
    ensures
        !derived(s, t),
{
    if derived(s, t) {
        lemma_complete(s, t);
    }
}

} // verus!
