//! The shape of a forest that is laid out level by level: first the roots, then the
//! children of the first root, of the second, and so on, then their children in the same
//! way. Such a forest is known from the number of its roots and, for each node in this
//! order, the number of its children.
use vstd::prelude::*;

verus! {

/// The sum of `fanout`.
pub open spec fn total(fanout: Seq<usize>) -> nat
    decreases fanout.len(),
{
    if fanout.len() == 0 {
        0
    } else {
        total(fanout.drop_last()) + fanout.last() as nat
    }
}

/// The place of the first child of node `i`: behind the roots and the children of all
/// nodes before `i`.
pub open spec fn first_child(roots: nat, fanout: Seq<usize>, i: int) -> nat {
    roots + total(fanout.take(i))
}

/// `fanout` gives, for each node of a forest with `roots` roots, the number of its
/// children: the nodes are the roots and all the children, and the children of a node
/// stand behind it.
pub open spec fn is_forest(roots: nat, fanout: Seq<usize>) -> bool {
    &&& roots + total(fanout) == fanout.len()
    &&& forall|i: int| 0 <= i < fanout.len() ==> #[trigger] first_child(roots, fanout, i) > i
}

/// Node `j` is a child of node `i`.
pub open spec fn is_child(roots: nat, fanout: Seq<usize>, i: int, j: int) -> bool {
    &&& 0 <= i < fanout.len()
    &&& first_child(roots, fanout, i) <= j < first_child(roots, fanout, i) + fanout[i]
}

/// The first node from `i` on whose children end behind `j`.
pub open spec fn parent_from(roots: nat, fanout: Seq<usize>, j: int, i: int) -> int
    decreases fanout.len() - i,
{
    if i < 0 || i >= fanout.len() || j < first_child(roots, fanout, i + 1) {
        i
    } else {
        parent_from(roots, fanout, j, i + 1)
    }
}

/// The node whose child `j` is, found from the numbers of children alone.
pub open spec fn parent_of(roots: nat, fanout: Seq<usize>, j: int) -> int {
    parent_from(roots, fanout, j, 0)
}

pub proof fn lemma_total_push(fanout: Seq<usize>, x: usize)
    ensures
        total(fanout.push(x)) == total(fanout) + x,
{
    assert(fanout.push(x).drop_last() =~= fanout);
}

pub proof fn lemma_total_step(fanout: Seq<usize>, i: int)
    requires
        0 <= i < fanout.len(),
    ensures
        total(fanout.take(i + 1)) == total(fanout.take(i)) + fanout[i],
{
    assert(fanout.take(i + 1).drop_last() =~= fanout.take(i));
}

/// The children of a later node begin no earlier than those of an earlier node end.
pub proof fn lemma_first_child_monotone(roots: nat, fanout: Seq<usize>, i: int, k: int)
    requires
        0 <= i <= k <= fanout.len(),
    ensures
        first_child(roots, fanout, i) <= first_child(roots, fanout, k),
        i < k ==> first_child(roots, fanout, i) + fanout[i] <= first_child(roots, fanout, k),
    decreases k - i,
{
    if i < k {
        lemma_total_step(fanout, i);
        lemma_first_child_monotone(roots, fanout, i + 1, k);
    }
}

proof fn lemma_parent_from(roots: nat, fanout: Seq<usize>, j: int, i: int)
    requires
        0 <= i < fanout.len(),
        first_child(roots, fanout, i) <= j < roots + total(fanout),
    ensures
        is_child(roots, fanout, parent_from(roots, fanout, j, i), j),
        i <= parent_from(roots, fanout, j, i),
    decreases fanout.len() - i,
{
    lemma_total_step(fanout, i);
    if j < first_child(roots, fanout, i + 1) {
    } else {
        if i + 1 == fanout.len() {
            assert(fanout.take(i + 1) =~= fanout);
        }
        lemma_parent_from(roots, fanout, j, i + 1);
    }
}

/// Every node behind the roots is the child of exactly one node, which the numbers of
/// children give and which stands before it.
pub proof fn lemma_parent(roots: nat, fanout: Seq<usize>, j: int)
    requires
        is_forest(roots, fanout),
        roots <= j < fanout.len(),
    ensures
        is_child(roots, fanout, parent_of(roots, fanout, j), j),
        0 <= parent_of(roots, fanout, j) < j,
        forall|i: int| is_child(roots, fanout, i, j) ==> i == parent_of(roots, fanout, j),
{
    assert(fanout.take(0) =~= Seq::<usize>::empty());
    lemma_parent_from(roots, fanout, j, 0);
    let p = parent_of(roots, fanout, j);
    assert(first_child(roots, fanout, p) > p);
    assert forall|i: int| is_child(roots, fanout, i, j) implies i == p by {
        if i < p {
            lemma_first_child_monotone(roots, fanout, i, p);
        } else if p < i {
            lemma_first_child_monotone(roots, fanout, p, i);
        }
    }
}

/// The number of nodes is the number of roots and of all children together, and the
/// forest is known from its numbers: two forests with the same roots and the same
/// numbers of children give every node the same parent.
pub proof fn lemma_shape_determines_parents(
    roots: nat,
    fanout: Seq<usize>,
    parents: Seq<Option<usize>>,
)
    requires
        is_forest(roots, fanout),
        parents.len() == fanout.len(),
        forall|j: int| 0 <= j < roots && j < parents.len() ==> parents[j] is None,
        forall|j: int|
            roots <= j < parents.len() ==> parents[j] is Some && is_child(
                roots,
                fanout,
                (#[trigger] parents[j])->Some_0 as int,
                j,
            ),
    ensures
        forall|j: int|
            roots <= j < parents.len() ==> (#[trigger] parents[j]) == Some(
                parent_of(roots, fanout, j) as usize,
            ),
{
    assert forall|j: int| roots <= j < parents.len() implies (#[trigger] parents[j]) == Some(
        parent_of(roots, fanout, j) as usize,
    ) by {
        lemma_parent(roots, fanout, j);
    }
}

} // verus!
