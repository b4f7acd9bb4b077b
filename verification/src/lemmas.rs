//! Facts about the model that the proofs of the tree operations rest on.

use crate::model::{Branch, LeafView, NodeView, SplitType};
use vstd::prelude::*;

verus! {

/// A path to an identifier exists exactly where a leaf carries it; the path
/// then ends at that leaf, and is empty only where the tree is that leaf.
pub proof fn lemma_path_to(tree: NodeView, id: usize)
    ensures
        tree.path_to(id) is Some <==> tree.has_id(id),
        tree.leaf(id) is Some <==> tree.has_id(id),
        tree.has_id(id) ==> tree.leaf(id).unwrap().id == id,
        tree.has_id(id) ==> tree.node_at(tree.path_to(id).unwrap()) == Some(
            NodeView::Leaf(tree.leaf(id).unwrap()),
        ),
        tree.has_id(id) ==> (tree.path_to(id).unwrap().len() == 0 <==> tree is Leaf),
    decreases tree,
{
    match tree {
        NodeView::Leaf(_) => {},
        NodeView::Split { first, second, .. } => {
            lemma_path_to(*first, id);
            lemma_path_to(*second, id);
            if first.has_id(id) {
                let path = first.path_to(id).unwrap();
                let whole = seq![Branch::First] + path;
                assert(whole.skip(1) =~= path);
            } else if second.has_id(id) {
                let path = second.path_to(id).unwrap();
                let whole = seq![Branch::Second] + path;
                assert(whole.skip(1) =~= path);
            }
        },
    }
}

/// The place of an identifier is that of the first leaf that carries it.
pub proof fn lemma_position(tree: NodeView, id: usize)
    requires
        tree.has_id(id),
    ensures
        0 <= tree.position(id) < tree.leaves().len(),
        tree.leaves()[tree.position(id)] == tree.leaf(id).unwrap(),
        tree.leaves()[tree.position(id)].id == id,
        forall|i: int| 0 <= i < tree.position(id) ==> tree.leaves()[i].id != id,
    decreases tree,
{
    match tree {
        NodeView::Leaf(_) => {},
        NodeView::Split { first, second, .. } => {
            lemma_path_to(*first, id);
            if first.has_id(id) {
                lemma_position(*first, id);
            } else {
                lemma_position(*second, id);
                assert forall|i: int| 0 <= i < tree.position(id) implies tree.leaves()[i].id
                    != id by {
                    if i < first.leaves().len() {
                        lemma_leaves_have_ids(*first, i);
                    } else {
                        assert(tree.leaves()[i] == second.leaves()[i - first.leaves().len()]);
                    }
                }
            }
        },
    }
}

/// Every leaf of the tree carries an identifier of the tree, and a tree has
/// at least one leaf.
pub proof fn lemma_leaves_have_ids(tree: NodeView, i: int)
    requires
        0 <= i < tree.leaves().len(),
    ensures
        tree.has_id(tree.leaves()[i].id),
    decreases tree,
{
    match tree {
        NodeView::Leaf(_) => {},
        NodeView::Split { first, second, .. } => {
            if i < first.leaves().len() {
                lemma_leaves_have_ids(*first, i);
            } else {
                lemma_leaves_have_ids(*second, i - first.leaves().len());
            }
        },
    }
}

/// An identifier of the tree is carried by one of its leaves.
pub proof fn lemma_ids_are_of_leaves(tree: NodeView, id: usize)
    ensures
        tree.has_id(id) <==> tree.ids().contains(id),
        tree.leaves().len() >= 1,
        tree.ids().len() == tree.leaves().len(),
    decreases tree,
{
    match tree {
        NodeView::Leaf(leaf) => {
            if tree.has_id(id) {
                assert(tree.ids()[0] == id);
            }
        },
        NodeView::Split { first, second, .. } => {
            lemma_ids_are_of_leaves(*first, id);
            lemma_ids_are_of_leaves(*second, id);
            assert(tree.ids() =~= first.ids() + second.ids());
            if first.ids().contains(id) {
                let i = choose|i: int| 0 <= i < first.ids().len() && first.ids()[i] == id;
                assert(tree.ids()[i] == id);
            }
            if second.ids().contains(id) {
                let i = choose|i: int| 0 <= i < second.ids().len() && second.ids()[i] == id;
                assert(tree.ids()[first.ids().len() + i] == id);
            }
        },
    }
}

/// The identifiers differ from one another exactly where the list of them
/// holds none twice.
pub proof fn lemma_distinct_ids(tree: NodeView)
    ensures
        tree.distinct() <==> tree.ids().no_duplicates(),
    decreases tree,
{
    match tree {
        NodeView::Leaf(_) => {},
        NodeView::Split { first, second, .. } => {
            lemma_distinct_ids(*first);
            lemma_distinct_ids(*second);
            let a = first.ids();
            let b = second.ids();
            assert(tree.ids() =~= a + b);
            lemma_ids_are_of_leaves(*first, 0);
            lemma_ids_are_of_leaves(*second, 0);
            if tree.distinct() {
                assert forall|i: int, j: int|
                    0 <= i < (a + b).len() && 0 <= j < (a + b).len() && i != j implies (a + b)[i]
                    != (a + b)[j] by {
                    if i < a.len() && j >= a.len() {
                        lemma_ids_are_of_leaves(*first, a[i]);
                        lemma_ids_are_of_leaves(*second, a[i]);
                        assert(first.has_id(a[i]));
                        if (a + b)[j] == a[i] {
                            assert(b[j - a.len()] == a[i]);
                            assert(b.contains(a[i]));
                        }
                    } else if j < a.len() && i >= a.len() {
                        lemma_ids_are_of_leaves(*first, a[j]);
                        lemma_ids_are_of_leaves(*second, a[j]);
                        assert(first.has_id(a[j]));
                        if (a + b)[i] == a[j] {
                            assert(b[i - a.len()] == a[j]);
                            assert(b.contains(a[j]));
                        }
                    }
                }
            }
            if (a + b).no_duplicates() {
                assert forall|i: int, j: int|
                    0 <= i < a.len() && 0 <= j < a.len() && i != j implies a[i] != a[j] by {
                    assert((a + b)[i] == a[i] && (a + b)[j] == a[j]);
                }
                assert forall|i: int, j: int|
                    0 <= i < b.len() && 0 <= j < b.len() && i != j implies b[i] != b[j] by {
                    assert((a + b)[a.len() + i] == b[i] && (a + b)[a.len() + j] == b[j]);
                }
                assert forall|id: usize| !(#[trigger] first.has_id(id) && second.has_id(id)) by {
                    lemma_ids_are_of_leaves(*first, id);
                    lemma_ids_are_of_leaves(*second, id);
                    if first.has_id(id) && second.has_id(id) {
                        let i = choose|i: int| 0 <= i < a.len() && a[i] == id;
                        let j = choose|j: int| 0 <= j < b.len() && b[j] == id;
                        assert((a + b)[i] == id && (a + b)[a.len() + j] == id);
                    }
                }
            }
        },
    }
}

/// Which identifiers a tree carries after a split: those it carried, and that
/// of the fresh leaf where the target was found. Without the target the
/// tree stays as it is; with it, the result is a split.
pub proof fn lemma_split_has_id(
    tree: NodeView,
    target: usize,
    orientation: SplitType,
    fresh: LeafView,
    id: usize,
)
    ensures
        tree.split_leaf(target, orientation, fresh).has_id(id) <==> tree.has_id(id) || (
        tree.has_id(target) && id == fresh.id),
        !tree.has_id(target) ==> tree.split_leaf(target, orientation, fresh) == tree,
        tree.has_id(target) ==> tree.split_leaf(target, orientation, fresh) is Split,
    decreases tree,
{
    reveal_with_fuel(NodeView::has_id, 2);
    match tree {
        NodeView::Leaf(_) => {},
        NodeView::Split { first, second, .. } => {
            lemma_split_has_id(*first, target, orientation, fresh, id);
            lemma_split_has_id(*second, target, orientation, fresh, id);
        },
    }
}

/// A split with a fresh identifier keeps the identifiers distinct.
pub proof fn lemma_split_distinct(
    tree: NodeView,
    target: usize,
    orientation: SplitType,
    fresh: LeafView,
)
    requires
        tree.distinct(),
        !tree.has_id(fresh.id),
    ensures
        tree.split_leaf(target, orientation, fresh).distinct(),
    decreases tree,
{
    reveal_with_fuel(NodeView::has_id, 2);
    reveal_with_fuel(NodeView::distinct, 2);
    match tree {
        NodeView::Leaf(leaf) => {},
        NodeView::Split { first, second, .. } => {
            if first.has_id(target) {
                lemma_split_distinct(*first, target, orientation, fresh);
                let changed = first.split_leaf(target, orientation, fresh);
                assert forall|id: usize| !(#[trigger] changed.has_id(id) && second.has_id(id)) by {
                    lemma_split_has_id(*first, target, orientation, fresh, id);
                    assert(!(first.has_id(id) && second.has_id(id)));
                }
            } else {
                lemma_split_distinct(*second, target, orientation, fresh);
                let changed = second.split_leaf(target, orientation, fresh);
                assert forall|id: usize| !(#[trigger] first.has_id(id) && changed.has_id(id)) by {
                    lemma_split_has_id(*second, target, orientation, fresh, id);
                    assert(!(first.has_id(id) && second.has_id(id)));
                }
            }
        },
    }
}

/// A split puts the fresh leaf right after the target and moves no other
/// leaf.
pub proof fn lemma_split_leaves(
    tree: NodeView,
    target: usize,
    orientation: SplitType,
    fresh: LeafView,
)
    requires
        tree.has_id(target),
    ensures
        tree.split_leaf(target, orientation, fresh).leaves() == tree.leaves().insert(
            tree.position(target) + 1,
            fresh,
        ),
    decreases tree,
{
    let after = tree.split_leaf(target, orientation, fresh);
    reveal_with_fuel(NodeView::leaves, 2);
    match tree {
        NodeView::Leaf(leaf) => {
            assert(after.leaves() =~= tree.leaves().insert(1, fresh));
        },
        NodeView::Split { first, second, .. } => {
            if first.has_id(target) {
                lemma_split_leaves(*first, target, orientation, fresh);
                lemma_position(*first, target);
                assert(after.leaves() =~= tree.leaves().insert(tree.position(target) + 1, fresh));
            } else {
                lemma_split_leaves(*second, target, orientation, fresh);
                lemma_position(*second, target);
                assert(after.leaves() =~= tree.leaves().insert(tree.position(target) + 1, fresh));
            }
        },
    }
}

/// Which identifiers a tree carries after a leaf was taken out: those it
/// carried, but for the target.
pub proof fn lemma_without_has_id(tree: NodeView, target: usize, id: usize)
    requires
        tree.distinct(),
        tree is Split,
        tree.has_id(target),
    ensures
        tree.without(target).has_id(id) <==> tree.has_id(id) && id != target,
    decreases tree,
{
    reveal_with_fuel(NodeView::has_id, 2);
    match tree {
        NodeView::Leaf(_) => {},
        NodeView::Split { first, second, .. } => {
            assert(!(first.has_id(target) && second.has_id(target)));
            assert(!(first.has_id(id) && second.has_id(id)));
            if first.has_id(target) {
                if !(*first is Leaf) {
                    lemma_without_has_id(*first, target, id);
                }
            } else {
                if !(*second is Leaf) {
                    lemma_without_has_id(*second, target, id);
                }
            }
        },
    }
}

/// Taking a leaf out brings no identifier into the tree.
pub proof fn lemma_without_adds_nothing(tree: NodeView, target: usize, id: usize)
    ensures
        tree.without(target).has_id(id) ==> tree.has_id(id),
    decreases tree,
{
    match tree {
        NodeView::Leaf(_) => {},
        NodeView::Split { first, second, .. } => {
            lemma_without_adds_nothing(*first, target, id);
            lemma_without_adds_nothing(*second, target, id);
        },
    }
}

/// Taking a leaf out keeps the identifiers distinct.
pub proof fn lemma_without_distinct(tree: NodeView, target: usize)
    requires
        tree.distinct(),
    ensures
        tree.without(target).distinct(),
    decreases tree,
{
    match tree {
        NodeView::Leaf(_) => {},
        NodeView::Split { first, second, .. } => {
            if first.has_id(target) {
                if !(*first is Leaf) {
                    lemma_without_distinct(*first, target);
                    let changed = first.without(target);
                    assert forall|id: usize| !(#[trigger] changed.has_id(id) && second.has_id(
                        id,
                    )) by {
                        lemma_without_has_id(*first, target, id);
                        assert(!(first.has_id(id) && second.has_id(id)));
                    }
                }
            } else if second.has_id(target) {
                if !(*second is Leaf) {
                    lemma_without_distinct(*second, target);
                    let changed = second.without(target);
                    assert forall|id: usize| !(#[trigger] first.has_id(id) && changed.has_id(
                        id,
                    )) by {
                        lemma_without_has_id(*second, target, id);
                        assert(!(first.has_id(id) && second.has_id(id)));
                    }
                }
            }
        },
    }
}

/// Taking a leaf out removes it from the list of leaves and moves no other.
pub proof fn lemma_without_leaves(tree: NodeView, target: usize)
    requires
        tree is Split,
        tree.has_id(target),
    ensures
        tree.without(target).leaves() == tree.leaves().remove(tree.position(target)),
    decreases tree,
{
    let after = tree.without(target);
    match tree {
        NodeView::Leaf(_) => {},
        NodeView::Split { first, second, .. } => {
            if first.has_id(target) {
                lemma_position(*first, target);
                if !(*first is Leaf) {
                    lemma_without_leaves(*first, target);
                }
                assert(after.leaves() =~= tree.leaves().remove(tree.position(target)));
            } else {
                lemma_position(*second, target);
                if !(*second is Leaf) {
                    lemma_without_leaves(*second, target);
                }
                assert(after.leaves() =~= tree.leaves().remove(tree.position(target)));
            }
        },
    }
}

/// Replacing a leaf by one with the same identifier changes that leaf and
/// nothing else: the same identifiers are carried, in the same places.
pub proof fn lemma_with_leaf(tree: NodeView, target: usize, leaf: LeafView)
    requires
        leaf.id == target,
    ensures
        forall|id: usize| #[trigger] tree.with_leaf(target, leaf).has_id(id) <==> tree.has_id(id),
        tree.distinct() ==> tree.with_leaf(target, leaf).distinct(),
        tree.has_id(target) ==> tree.with_leaf(target, leaf).leaves() == tree.leaves().update(
            tree.position(target),
            leaf,
        ),
        !tree.has_id(target) ==> tree.with_leaf(target, leaf) == tree,
        tree.with_leaf(target, leaf).ids() == tree.ids(),
    decreases tree,
{
    let after = tree.with_leaf(target, leaf);
    match tree {
        NodeView::Leaf(_) => {
            assert(after.ids() =~= tree.ids());
            if tree.has_id(target) {
                assert(after.leaves() =~= tree.leaves().update(0, leaf));
            }
        },
        NodeView::Split { first, second, .. } => {
            lemma_with_leaf(*first, target, leaf);
            lemma_with_leaf(*second, target, leaf);
            assert forall|id: usize| #[trigger] after.has_id(id) <==> tree.has_id(id) by {
                let changed_first = first.with_leaf(target, leaf);
                let changed_second = second.with_leaf(target, leaf);
                assert(changed_first.has_id(id) <==> first.has_id(id));
                assert(changed_second.has_id(id) <==> second.has_id(id));
            }
            if first.has_id(target) {
                lemma_position(*first, target);
                assert(after.leaves() =~= tree.leaves().update(tree.position(target), leaf));
                if tree.distinct() {
                    let changed = first.with_leaf(target, leaf);
                    assert forall|id: usize| !(#[trigger] changed.has_id(id) && second.has_id(
                        id,
                    )) by {
                        assert(changed.has_id(id) <==> first.has_id(id));
                        assert(!(first.has_id(id) && second.has_id(id)));
                    }
                }
            } else {
                if second.has_id(target) {
                    lemma_position(*second, target);
                    assert(after.leaves() =~= tree.leaves().update(tree.position(target), leaf));
                }
                if tree.distinct() {
                    let changed = second.with_leaf(target, leaf);
                    assert forall|id: usize| !(#[trigger] first.has_id(id) && changed.has_id(
                        id,
                    )) by {
                        assert(changed.has_id(id) <==> second.has_id(id));
                        assert(!(first.has_id(id) && second.has_id(id)));
                    }
                }
            }
            assert(after.ids() =~= after.leaves().map_values(|l: LeafView| l.id));
            assert(after.ids() =~= first.with_leaf(target, leaf).ids() + (if first.has_id(target) {
                second.ids()
            } else {
                second.with_leaf(target, leaf).ids()
            }));
            assert(tree.ids() =~= first.ids() + second.ids());
            if first.has_id(target) {
            } else {
                assert(first.with_leaf(target, leaf) == *first);
            }
        },
    }
}

} // verus!
