//! The grammar read as a relation between a parse tree and the bytes it
//! covers: what must stand in the input at a node of each production, and
//! between its children.

use vstd::prelude::*;
use crate::grammar::{
    ident_run, is_ident_part, is_ident_start, is_space, skip_space, Rule, BAR, COMMA,
    LEFT_BRACKET, LEFT_PAREN, RIGHT_BRACKET, RIGHT_PAREN,
};
use crate::syntax::token_byte;
use crate::tree::{nested, Tree};

verus! {

/// Whether `s` holds nothing but white space from `a` up to `b`.
pub open spec fn blank(s: Seq<u8>, a: int, b: int) -> bool {
    0 <= a <= b <= s.len() && forall|i: int| a <= i < b ==> is_space(#[trigger] s[i])
}

/// Whether `s` holds, from `a` up to `b`, white space, then the byte `sep`
/// at offset `k`, then white space again.
pub open spec fn gap_at(s: Seq<u8>, a: int, k: int, sep: u8, b: int) -> bool {
    blank(s, a, k) && k < b && s[k] == sep && blank(s, k + 1, b)
}

/// Whether `s` holds, from `a` up to `b`, the byte `sep` and besides it
/// nothing but white space.
pub open spec fn gap(s: Seq<u8>, a: int, sep: u8, b: int) -> bool {
    exists|k: int| gap_at(s, a, k, sep, b)
}

/// Whether `s` holds, from `a` up to `end`, white space and then the byte
/// `sep` as the last one.
pub open spec fn closes(s: Seq<u8>, a: int, sep: u8, end: int) -> bool {
    a < end && blank(s, a, end - 1) && s[end - 1] == sep
}

/// Whether `sep` stands between the node of `row` at index `i` and the next
/// one.
pub open spec fn gap_behind(s: Seq<u8>, row: Seq<Tree>, i: int, sep: u8) -> bool {
    gap(s, row[i].end, sep, row[i + 1].start)
}

/// Whether `sep` stands between each node of `row` from index `from` on and
/// the next one.
pub open spec fn separated(s: Seq<u8>, row: Seq<Tree>, from: int, sep: u8) -> bool {
    forall|i: int| from <= i < row.len() - 1 ==> #[trigger] gap_behind(s, row, i, sep)
}

/// Whether every node of `row` spells what it covers.
pub open spec fn all_spelled(s: Seq<u8>, row: Seq<Tree>) -> bool {
    forall|i: int| 0 <= i < row.len() ==> spelled(s, #[trigger] row[i])
}

/// Whether the bytes of `s` that `t` covers are written as the production of
/// `t` asks, around children that are written as theirs ask:
/// an `Id` covers a letter or underscore and then all the letters, digits
/// and underscores that follow; an `Apply` starts with its `Id` and either
/// ends with it or goes on with a bracket, its arguments with commas between
/// them, and a closing bracket; a `Union` runs from its first term to its
/// last, with bars between them; a `Group` runs from a parenthesis to the
/// one that closes it; an `Expr` covers the whole input. White space may
/// stand around every token.
pub open spec fn spelled(s: Seq<u8>, t: Tree) -> bool
    decreases t,
{
    &&& 0 <= t.start <= t.end <= s.len()
    &&& forall|i: int| 0 <= i < t.children.len() ==> spelled(s, #[trigger] t.children[i])
    &&& match t.rule {
        Rule::Id => {
            &&& t.start < t.end
            &&& is_ident_start(s[t.start])
            &&& forall|i: int| t.start < i < t.end ==> is_ident_part(#[trigger] s[i])
            &&& t.end < s.len() ==> !is_ident_part(s[t.end])
        },
        Rule::Apply => {
            &&& t.children.len() >= 1
            &&& t.children[0].start == t.start
            &&& separated(s, t.children, 1, COMMA)
            &&& if t.children.len() == 1 {
                t.end == t.children[0].end
            } else {
                &&& gap(s, t.children[0].end, LEFT_BRACKET, t.children[1].start)
                &&& closes(s, t.children.last().end, RIGHT_BRACKET, t.end)
            }
        },
        Rule::Union => {
            &&& t.children.len() >= 1
            &&& t.children[0].start == t.start
            &&& t.children.last().end == t.end
            &&& separated(s, t.children, 0, BAR)
        },
        Rule::Group => {
            &&& t.children.len() == 1
            &&& t.start < t.end
            &&& s[t.start] == LEFT_PAREN
            &&& blank(s, t.start + 1, t.children[0].start)
            &&& closes(s, t.children[0].end, RIGHT_PAREN, t.end)
        },
        Rule::Expr => {
            &&& t.children.len() == 1
            &&& t.start == 0
            &&& t.end == s.len()
            &&& blank(s, 0, t.children[0].start)
            &&& blank(s, t.children[0].end, s.len() as int)
        },
        Rule::EndOfInput => t.start == s.len(),
        _ => t.end == t.start + 1 && Some(s[t.start]) == token_byte(t.rule),
    }
}

/// Whether `t` is a derivation over `s`: it is built as the grammar builds
/// trees and spells what it covers of `s`.
pub open spec fn derived(s: Seq<u8>, t: Tree) -> bool {
    nested(t) && spelled(s, t)
}

/// Skipping white space passes over white space only, stays within the
/// input, and stops at a byte that is none.
pub proof fn lemma_skip_space(s: Seq<u8>, a: int)
    requires
        0 <= a <= s.len(),
    ensures
        blank(s, a, skip_space(s, a)),
        skip_space(s, a) < s.len() ==> !is_space(s[skip_space(s, a)]),
    decreases s.len() - a,
{
    if a < s.len() && is_space(s[a]) {
        lemma_skip_space(s, a + 1);
        assert(skip_space(s, a) == skip_space(s, a + 1));
        assert forall|i: int| a <= i < skip_space(s, a) implies is_space(#[trigger] s[i]) by {
            if i > a {
                assert(blank(s, a + 1, skip_space(s, a + 1)));
            }
        }
    }
}

/// A run of identifier bytes holds identifier bytes only, stays within the
/// input, and stops at a byte that is none.
pub proof fn lemma_ident_run_holds(s: Seq<u8>, a: int)
    requires
        0 <= a <= s.len(),
    ensures
        a + ident_run(s, a) <= s.len(),
        forall|i: int| a <= i < a + ident_run(s, a) ==> is_ident_part(#[trigger] s[i]),
        a + ident_run(s, a) < s.len() ==> !is_ident_part(s[a + ident_run(s, a)]),
    decreases s.len() - a,
{
    if a < s.len() && is_ident_part(s[a]) {
        lemma_ident_run_holds(s, a + 1);
    }
}

/// White space, the byte `sep`, and white space up to the next token make a
/// gap.
pub proof fn lemma_gap(s: Seq<u8>, a: int, sep: u8)
    requires
        0 <= a <= s.len(),
        skip_space(s, a) < s.len(),
        s[skip_space(s, a)] == sep,
    ensures
        gap(s, a, sep, skip_space(s, skip_space(s, a) + 1)),
{
    let k = skip_space(s, a);
    lemma_skip_space(s, a);
    lemma_skip_space(s, k + 1);
    assert(gap_at(s, a, k, sep, skip_space(s, k + 1)));
}

/// A row stays separated when a node is added behind a gap.
pub proof fn lemma_separated_push(s: Seq<u8>, row: Seq<Tree>, from: int, sep: u8, next: Tree)
    requires
        0 <= from,
        separated(s, row, from, sep),
        row.len() > from ==> row.len() > 0 && gap(s, row.last().end, sep, next.start),
    ensures
        separated(s, row.push(next), from, sep),
{
    let all = row.push(next);
    assert forall|i: int| from <= i < all.len() - 1 implies #[trigger] gap_behind(
        s,
        all,
        i,
        sep,
    ) by {
        assert(all[i] == row[i]);
        if i + 1 < row.len() {
            assert(all[i + 1] == row[i + 1]);
            assert(gap_behind(s, row, i, sep));
        } else {
            assert(all[i + 1] == next);
        }
    }
}

/// A row of spelled nodes stays one when a spelled node is added.
pub proof fn lemma_spelled_push(s: Seq<u8>, row: Seq<Tree>, next: Tree)
    requires
        all_spelled(s, row),
        spelled(s, next),
    ensures
        all_spelled(s, row.push(next)),
{
    let all = row.push(next);
    assert forall|i: int| 0 <= i < all.len() implies spelled(s, #[trigger] all[i]) by {
        if i < row.len() {
            assert(all[i] == row[i]);
        } else {
            assert(all[i] == next);
        }
    }
}

} // verus!
