//! The shape of trees: which nodes lie below which, and what it means that
//! no node is shared.

use vstd::prelude::*;
use crate::compute::visitable;
use crate::laws::hidden::{descends, reaches};
use crate::node::Node;
use crate::tree::Structure;

verus! {

/// Whether no node lies below two different children of one node: the
/// structure is a tree, in which every node but the roots has one place.
pub open spec fn separate(s: Structure) -> bool {
    forall|n: Node, i: int, j: int, d: Node|
        #![trigger reaches(s, s.children[n][i], d), reaches(s, s.children[n][j], d)]
        s.nodes.contains(n) && 0 <= i < s.children[n].len() && 0 <= j < s.children[n].len() && i
            != j ==> !(reaches(s, s.children[n][i], d) && reaches(s, s.children[n][j], d))
}

/// Whether `to` is a descendant of `from`, and not `from` itself.
pub open spec fn strictly_below(s: Structure, from: Node, to: Node) -> bool {
    descends(s, from, to, s.children[from].len())
}

/// A node that lies below the first so many children of a node lies below
/// one of them.
pub proof fn lemma_descends_through_a_child(s: Structure, from: Node, to: Node, upto: nat)
    requires
        descends(s, from, to, upto),
    ensures
        exists|i: int| 0 <= i < upto && visitable(s, from, #[trigger] s.children[from][i]) && reaches(
            s,
            s.children[from][i],
            to,
        ),
    decreases upto,
{
    if upto > 0 {
        let child = s.children[from][upto - 1];
        if visitable(s, from, child) && reaches(s, child, to) {
            assert(visitable(s, from, s.children[from][upto - 1]));
        } else {
            lemma_descends_through_a_child(s, from, to, (upto - 1) as nat);
        }
    }
}

/// A node that lies below a child of a node lies below the node.
pub proof fn lemma_child_descends(s: Structure, from: Node, to: Node, i: int, upto: nat)
    requires
        0 <= i < upto,
        visitable(s, from, s.children[from][i]),
        reaches(s, s.children[from][i], to),
    ensures
        descends(s, from, to, upto),
    decreases upto,
{
    if i < upto - 1 {
        lemma_child_descends(s, from, to, i, (upto - 1) as nat);
    }
}

/// What lies below a node is a node of the tree of no higher rank, and of
/// lower rank unless it is the node itself.
pub proof fn lemma_reaches_ranks(s: Structure, from: Node, to: Node)
    requires
        s.wf(),
        s.nodes.contains(from),
        reaches(s, from, to),
    ensures
        s.nodes.contains(to),
        s.rank[to] <= s.rank[from],
        to != from ==> s.rank[to] < s.rank[from] && strictly_below(s, from, to),
    decreases s.rank[from],
{
    if to != from {
        lemma_descends_through_a_child(s, from, to, s.children[from].len());
        let i = choose|i: int|
            0 <= i < s.children[from].len() && visitable(s, from, #[trigger] s.children[from][i])
                && reaches(s, s.children[from][i], to);
        lemma_reaches_ranks(s, s.children[from][i], to);
    }
}

/// What lies below a node that lies below another lies below the other.
pub proof fn lemma_reaches_is_transitive(s: Structure, a: Node, b: Node, c: Node)
    requires
        s.wf(),
        s.nodes.contains(a),
        reaches(s, a, b),
        reaches(s, b, c),
    ensures
        reaches(s, a, c),
    decreases s.rank[a],
{
    if a != b {
        lemma_descends_through_a_child(s, a, b, s.children[a].len());
        let i = choose|i: int|
            0 <= i < s.children[a].len() && visitable(s, a, #[trigger] s.children[a][i]) && reaches(
                s,
                s.children[a][i],
                b,
            );
        lemma_reaches_is_transitive(s, s.children[a][i], b, c);
        lemma_child_descends(s, a, c, i, s.children[a].len());
    }
}

/// In a tree, no child of a node lies below another child of that node, nor
/// strictly below itself.
pub proof fn lemma_children_are_apart(s: Structure, n: Node, i: int, j: int)
    requires
        s.wf(),
        separate(s),
        s.nodes.contains(n),
        0 <= i < s.children[n].len(),
        0 <= j < s.children[n].len(),
    ensures
        !strictly_below(s, s.children[n][i], s.children[n][j]),
        i != j ==> !reaches(s, s.children[n][i], s.children[n][j]),
{
    let a = s.children[n][i];
    let b = s.children[n][j];
    assert(s.nodes.contains(a));
    assert(reaches(s, b, b));
    if i == j {
        if strictly_below(s, a, b) {
            lemma_descends_through_a_child(s, a, b, s.children[a].len());
            let k = choose|k: int|
                0 <= k < s.children[a].len() && visitable(s, a, #[trigger] s.children[a][k])
                    && reaches(s, s.children[a][k], b);
            lemma_reaches_ranks(s, s.children[a][k], b);
        }
    } else {
        if reaches(s, a, b) {
            assert(reaches(s, s.children[n][i], b) && reaches(s, s.children[n][j], b));
        }
    }
}

/// Whether no node is a child twice: of two nodes, or of one node in two
/// places.
pub open spec fn single_parent(s: Structure) -> bool {
    forall|p: Node, i: int, q: Node, j: int|
        #![trigger s.children[p][i], s.children[q][j]]
        s.nodes.contains(p) && s.nodes.contains(q) && 0 <= i < s.children[p].len() && 0 <= j
            < s.children[q].len() && s.children[p][i] == s.children[q][j] ==> p == q && i == j
}

/// What lies strictly below a node is the child of a node at or below it.
pub proof fn lemma_parent_lies_below(s: Structure, from: Node, to: Node)
    requires
        s.wf(),
        s.nodes.contains(from),
        strictly_below(s, from, to),
    ensures
        exists|p: Node, k: int|
            reaches(s, from, p) && s.nodes.contains(p) && 0 <= k < s.children[p].len()
                && #[trigger] s.children[p][k] == to,
    decreases s.rank[from],
{
    lemma_descends_through_a_child(s, from, to, s.children[from].len());
    let i = choose|i: int|
        0 <= i < s.children[from].len() && visitable(s, from, #[trigger] s.children[from][i])
            && reaches(s, s.children[from][i], to);
    let child = s.children[from][i];
    if child == to {
        assert(reaches(s, from, from));
        assert(s.children[from][i] == to);
    } else {
        lemma_reaches_ranks(s, child, to);
        lemma_parent_lies_below(s, child, to);
        let (p, k) = choose|p: Node, k: int|
            reaches(s, child, p) && s.nodes.contains(p) && 0 <= k < s.children[p].len()
                && #[trigger] s.children[p][k] == to;
        lemma_child_descends(s, from, p, i, s.children[from].len());
        assert(s.children[p][k] == to);
    }
}

/// Where no node is a child twice, two nodes that a node lies below lie one
/// below the other.
pub proof fn lemma_ancestors_are_in_line(s: Structure, a: Node, b: Node, d: Node)
    requires
        s.wf(),
        single_parent(s),
        s.nodes.contains(a),
        s.nodes.contains(b),
        reaches(s, a, d),
        reaches(s, b, d),
    ensures
        reaches(s, a, b) || reaches(s, b, a),
    decreases s.rank[a],
{
    if a == d || b == d {
    } else {
        lemma_descends_through_a_child(s, a, d, s.children[a].len());
        let i = choose|i: int|
            0 <= i < s.children[a].len() && visitable(s, a, #[trigger] s.children[a][i]) && reaches(
                s,
                s.children[a][i],
                d,
            );
        let child = s.children[a][i];
        lemma_ancestors_are_in_line(s, child, b, d);
        if reaches(s, child, b) {
            lemma_child_descends(s, a, b, i, s.children[a].len());
        } else if b == child {
            assert(reaches(s, child, child));
            lemma_child_descends(s, a, b, i, s.children[a].len());
        } else {
            lemma_reaches_ranks(s, b, child);
            lemma_parent_lies_below(s, b, child);
            let (p, k) = choose|p: Node, k: int|
                reaches(s, b, p) && s.nodes.contains(p) && 0 <= k < s.children[p].len()
                    && #[trigger] s.children[p][k] == child;
            assert(s.children[p][k] == s.children[a][i]);
            assert(p == a);
        }
    }
}

/// A structure in which no node is a child twice is a tree.
pub proof fn lemma_single_parent_is_a_tree(s: Structure)
    requires
        s.wf(),
        single_parent(s),
    ensures
        separate(s),
{
    assert forall|n: Node, i: int, j: int, d: Node|
        #![trigger reaches(s, s.children[n][i], d), reaches(s, s.children[n][j], d)]
        s.nodes.contains(n) && 0 <= i < s.children[n].len() && 0 <= j < s.children[n].len() && i
            != j implies !(reaches(s, s.children[n][i], d) && reaches(s, s.children[n][j], d)) by {
        let a = s.children[n][i];
        let b = s.children[n][j];
        assert(s.nodes.contains(a) && s.nodes.contains(b));
        if reaches(s, a, d) && reaches(s, b, d) {
            lemma_ancestors_are_in_line(s, a, b, d);
            assert(a != b);
            if reaches(s, a, b) {
                lemma_lies_below_its_parent_only(s, n, i, j);
            } else {
                lemma_lies_below_its_parent_only(s, n, j, i);
            }
        }
    }
}

/// Where no node is a child twice, no child of a node lies below another
/// child of that node.
pub proof fn lemma_lies_below_its_parent_only(s: Structure, n: Node, i: int, j: int)
    requires
        s.wf(),
        single_parent(s),
        s.nodes.contains(n),
        0 <= i < s.children[n].len(),
        0 <= j < s.children[n].len(),
        i != j,
    ensures
        !reaches(s, s.children[n][i], s.children[n][j]),
{
    let a = s.children[n][i];
    let b = s.children[n][j];
    assert(s.nodes.contains(a) && s.nodes.contains(b));
    assert(a != b);
    if reaches(s, a, b) {
        lemma_reaches_ranks(s, a, b);
        lemma_parent_lies_below(s, a, b);
        let (p, k) = choose|p: Node, k: int|
            reaches(s, a, p) && s.nodes.contains(p) && 0 <= k < s.children[p].len()
                && #[trigger] s.children[p][k] == b;
        assert(s.children[p][k] == s.children[n][j]);
        assert(p == n);
        lemma_reaches_ranks(s, a, n);
    }
}

} // verus!
