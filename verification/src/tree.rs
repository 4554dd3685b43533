//! Parse trees: the nodes that a match leaves, each with its production and
//! the span of input it covers.

use vstd::prelude::*;
use crate::grammar::Rule;

verus! {

/// The mathematical model of a parse tree.
pub struct Tree {
    pub rule: Rule,
    pub start: int,
    pub end: int,
    pub children: Seq<Tree>,
}

/// A node of a parse tree: the production that matched, the bytes
/// `start..end` that it matched, and the nodes of its parts in source order.
#[derive(Debug)]
pub struct ParseTree {
    pub rule: Rule,
    pub start: usize,
    pub end: usize,
    pub children: Vec<ParseTree>,
}

impl View for ParseTree {
    type V = Tree;

    open spec fn view(&self) -> Tree
        decreases self, self.children@.len() + 1,
    {
        Tree {
            rule: self.rule,
            start: self.start as int,
            end: self.end as int,
            children: child_views(self, self.children@.len()),
        }
    }
}

/// The models of the first `n` children of `t`.
pub open spec fn child_views(t: &ParseTree, n: nat) -> Seq<Tree>
    decreases t, n,
{
    if 0 < n <= t.children@.len() {
        child_views(t, (n - 1) as nat).push(t.children[n - 1]@)
    } else {
        Seq::empty()
    }
}

/// The models of a list of nodes.
pub open spec fn views(nodes: Seq<ParseTree>) -> Seq<Tree> {
    Seq::new(nodes.len(), |i: int| nodes[i]@)
}

/// Whether every node of `row` from index `from` on comes from `a` or `b`.
pub open spec fn all_from(row: Seq<Tree>, from: int, a: Rule, b: Rule) -> bool {
    forall|i: int| from <= i < row.len() ==> (#[trigger] row[i]).rule == a || row[i].rule == b
}

/// Whether a node of production `rule` may have the children `row`: an `Expr`
/// or a `Group` holds one `Union`; a `Union` holds one or more terms, each an
/// `Apply` or a `Group`; an `Apply` holds an `Id` and then a `Union` for each
/// argument; an `Id` and a token hold nothing.
pub open spec fn shape(rule: Rule, row: Seq<Tree>) -> bool {
    match rule {
        Rule::Expr | Rule::Group => row.len() == 1 && row[0].rule == Rule::Union,
        Rule::Union => row.len() >= 1 && all_from(row, 0, Rule::Apply, Rule::Group),
        Rule::Apply => row.len() >= 1 && row[0].rule == Rule::Id && all_from(
            row,
            1,
            Rule::Union,
            Rule::Union,
        ),
        _ => row.len() == 0,
    }
}

/// Whether `t` is built as the grammar builds trees: its children are those
/// that its production allows, every child lies within the span of its
/// parent, and each sibling ends before the next one starts. This holds
/// below `t` too.
pub open spec fn nested(t: Tree) -> bool
    decreases t,
{
    &&& 0 <= t.start <= t.end
    &&& shape(t.rule, t.children)
    &&& forall|i: int|
        0 <= i < t.children.len() ==> {
            &&& t.start <= (#[trigger] t.children[i]).start
            &&& t.children[i].end <= t.end
            &&& nested(t.children[i])
        }
    &&& forall|i: int, j: int|
        0 <= i < j < t.children.len() ==> (#[trigger] t.children[i]).end <= (#[trigger] t.children[j]).start
}

/// Whether the nodes of `row` stand one after the other between `lo` and `hi`,
/// each of them with nested spans.
pub open spec fn in_row(row: Seq<Tree>, lo: int, hi: int) -> bool {
    &&& forall|i: int|
        0 <= i < row.len() ==> {
            &&& lo <= (#[trigger] row[i]).start
            &&& row[i].end <= hi
            &&& nested(row[i])
        }
    &&& forall|i: int, j: int|
        0 <= i < j < row.len() ==> (#[trigger] row[i]).end <= (#[trigger] row[j]).start
}

/// Whether `t` is built as the grammar builds trees, over an input of `len`
/// bytes.
pub open spec fn fits(t: Tree, len: int) -> bool {
    nested(t) && t.end <= len
}

/// A node's model holds the models of its children.
pub proof fn lemma_children(t: ParseTree)
    ensures
        t@.children == views(t.children@),
{
    lemma_child_views(&t, t.children@.len());
    assert(t.children@.take(t.children@.len() as int) =~= t.children@);
    assert(t@.children =~= views(t.children@));
}

proof fn lemma_child_views(t: &ParseTree, n: nat)
    requires
        n <= t.children@.len(),
    ensures
        child_views(t, n) == views(t.children@.take(n as int)),
    decreases n,
{
    let whole = views(t.children@.take(n as int));
    if n > 0 {
        lemma_child_views(t, (n - 1) as nat);
        let before = views(t.children@.take(n - 1));
        let last = t.children[n - 1]@;
        assert(child_views(t, n) == before.push(last));
        assert(whole.len() == n);
        assert forall|i: int| 0 <= i < n implies whole[i] == before.push(last)[i] by {
            assert(whole[i] == t.children@.take(n as int)[i]@);
            if i < n - 1 {
                assert(before[i] == t.children@.take(n - 1)[i]@);
            }
        }
        assert(whole =~= before.push(last));
    } else {
        assert(whole =~= Seq::<Tree>::empty());
    }
}

/// A node is nested when its children are those that its production allows
/// and stand in a row within its span.
pub proof fn lemma_nested(t: Tree)
    requires
        0 <= t.start <= t.end,
        shape(t.rule, t.children),
        in_row(t.children, t.start, t.end),
    ensures
        nested(t),
{
}

/// A row stays one when a node is added behind it.
pub proof fn lemma_row_push(row: Seq<Tree>, lo: int, hi: int, next: Tree, end: int)
    requires
        in_row(row, lo, hi),
        nested(next),
        lo <= hi <= next.start,
        next.end <= end,
    ensures
        in_row(row.push(next), lo, end),
{
    let all = row.push(next);
    assert forall|i: int| 0 <= i < all.len() implies lo <= (#[trigger] all[i]).start && all[i].end
        <= end && nested(all[i]) by {
        if i < row.len() {
            assert(all[i] == row[i]);
        }
    }
    assert forall|i: int, j: int| 0 <= i < j < all.len() implies (#[trigger] all[i]).end <= (
    #[trigger] all[j]).start by {
        assert(all[i] == row[i]);
        if j < row.len() {
            assert(all[j] == row[j]);
        }
    }
}

/// Adding a node to a list adds its model to the models.
pub proof fn lemma_views_push(nodes: Seq<ParseTree>, next: ParseTree)
    ensures
        views(nodes.push(next)) == views(nodes).push(next@),
{
    assert(views(nodes.push(next)) =~= views(nodes).push(next@));
}

/// The start offsets of the nodes of `t` in document order: each node
/// before its children, and the children from left to right.
pub open spec fn starts(t: Tree) -> Seq<int>
    decreases t, 1nat, 0nat,
{
    seq![t.start] + starts_below(t, t.children.len())
}

/// The start offsets, in document order, of the nodes below `t` that lie in
/// its first `n` children.
pub open spec fn starts_below(t: Tree, n: nat) -> Seq<int>
    decreases t, 0nat, n,
{
    if 0 < n <= t.children.len() {
        starts_below(t, (n - 1) as nat) + starts(t.children[n - 1])
    } else {
        Seq::empty()
    }
}

/// Whether no offset of `list` is smaller than one before it.
pub open spec fn never_falls(list: Seq<int>) -> bool {
    forall|i: int, j: int| 0 <= i <= j < list.len() ==> list[i] <= list[j]
}

/// Whether every offset of `list` lies between `lo` and `hi`.
pub open spec fn all_between(list: Seq<int>, lo: int, hi: int) -> bool {
    forall|i: int| 0 <= i < list.len() ==> lo <= #[trigger] list[i] <= hi
}

/// In a tree that is built as the grammar builds trees, the start offsets
/// never fall on a walk in document order, and all lie within the span of
/// the root.
pub proof fn lemma_starts_never_fall(t: Tree)
    requires
        nested(t),
    ensures
        never_falls(starts(t)),
        all_between(starts(t), t.start, t.end),
    decreases t, 1nat, 0nat,
{
    lemma_starts_below(t, t.children.len());
    let below = starts_below(t, t.children.len());
    let all = starts(t);
    assert forall|i: int| 0 <= i < all.len() implies t.start <= #[trigger] all[i] <= t.end by {
        if i > 0 {
            assert(all[i] == below[i - 1]);
        }
    }
    assert forall|i: int, j: int| 0 <= i <= j < all.len() implies all[i] <= all[j] by {
        if i > 0 {
            assert(all[i] == below[i - 1]);
            assert(all[j] == below[j - 1]);
        }
    }
}

/// The same of the nodes in the first `n` children of `t`: their start
/// offsets never fall, and lie between the start of `t` and the end of the
/// last of these children.
pub proof fn lemma_starts_below(t: Tree, n: nat)
    requires
        nested(t),
        n <= t.children.len(),
    ensures
        never_falls(starts_below(t, n)),
        all_between(
            starts_below(t, n),
            t.start,
            if n == 0 {
                t.start
            } else {
                t.children[n - 1].end
            },
        ),
        n > 0 ==> t.children[n - 1].end <= t.end,
    decreases t, 0nat, n,
{
    if n > 0 {
        let m = (n - 1) as nat;
        let child = t.children[n - 1];
        lemma_starts_below(t, m);
        lemma_starts_never_fall(child);
        let before = starts_below(t, m);
        let inside = starts(child);
        let all = starts_below(t, n);
        assert(all == before + inside);
        assert(t.start <= child.start && child.end <= t.end);
        assert(nested(child));
        assert(child.start <= child.end);
        assert forall|i: int| 0 <= i < before.len() implies #[trigger] before[i] <= child.start by {
            if m > 0 {
                assert(t.children[m - 1].end <= child.start);
            }
        }
        assert forall|i: int| 0 <= i < all.len() implies t.start <= #[trigger] all[i]
            <= child.end by {
            if i < before.len() {
                assert(all[i] == before[i]);
            } else {
                assert(all[i] == inside[i - before.len()]);
            }
        }
        assert forall|i: int, j: int| 0 <= i <= j < all.len() implies all[i] <= all[j] by {
            if j < before.len() {
                assert(all[i] == before[i] && all[j] == before[j]);
            } else if i < before.len() {
                assert(all[i] == before[i]);
                assert(all[j] == inside[j - before.len()]);
            } else {
                assert(all[i] == inside[i - before.len()]);
                assert(all[j] == inside[j - before.len()]);
            }
        }
    }
}

} // verus!
