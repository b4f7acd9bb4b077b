//! What holds of the tree operations taken together.

use crate::layout::{split_type_of, split_type_text, LayoutView};
use crate::lemmas::{
    lemma_distinct_ids, lemma_position, lemma_split_distinct, lemma_split_has_id,
    lemma_split_leaves, lemma_without_distinct, lemma_without_has_id,
};
use crate::model::{LeafView, NodeView, SplitType};
use crate::mutate::fresh_leaf;
use vstd::prelude::*;

verus! {

/// A split keeps what was there. Every leaf of the tree is still a leaf of
/// it, unchanged and in the same order; the fresh leaf stands right after the
/// target; and where the fresh identifier is new to a tree of distinct
/// identifiers, the identifiers are distinct afterwards too.
pub proof fn lemma_split_preserves_content(
    tree: NodeView,
    target: usize,
    orientation: SplitType,
    fresh: LeafView,
)
    requires
        tree.has_id(target),
    ensures
        tree.split_leaf(target, orientation, fresh).leaves() == tree.leaves().insert(
            tree.position(target) + 1,
            fresh,
        ),
        tree.split_leaf(target, orientation, fresh).leaves().len() == tree.leaves().len() + 1,
        tree.distinct() && !tree.has_id(fresh.id) ==> tree.split_leaf(
            target,
            orientation,
            fresh,
        ).ids().no_duplicates(),
{
    lemma_split_leaves(tree, target, orientation, fresh);
    lemma_position(tree, target);
    if tree.distinct() && !tree.has_id(fresh.id) {
        lemma_split_distinct(tree, target, orientation, fresh);
        lemma_distinct_ids(tree.split_leaf(target, orientation, fresh));
    }
}

/// Taking out the leaf that a split has just made gives back the tree as it
/// was before the split.
pub proof fn lemma_remove_undoes_split(
    tree: NodeView,
    target: usize,
    orientation: SplitType,
    fresh: LeafView,
)
    requires
        tree.has_id(target),
        !tree.has_id(fresh.id),
    ensures
        tree.split_leaf(target, orientation, fresh).without(fresh.id) == tree,
    decreases tree,
{
    reveal_with_fuel(NodeView::has_id, 2);
    match tree {
        NodeView::Leaf(_) => {},
        NodeView::Split { first, second, .. } => {
            if first.has_id(target) {
                lemma_remove_undoes_split(*first, target, orientation, fresh);
                lemma_split_has_id(*first, target, orientation, fresh, fresh.id);
            } else {
                lemma_remove_undoes_split(*second, target, orientation, fresh);
                lemma_split_has_id(*second, target, orientation, fresh, fresh.id);
            }
        },
    }
}

/// The two split types are persisted under names that read back as
/// themselves.
pub proof fn lemma_split_type_reads_back(orientation: SplitType)
    ensures
        split_type_of(split_type_text(orientation)) == Some(orientation),
{
    reveal_strlit("Horizontal");
    reveal_strlit("Vertical");
    assert("Horizontal"@.len() != "Vertical"@.len());
}

/// What the tree of a layout without fault looks like: it has one leaf for
/// each terminal of the layout, and their identifiers are the numbers from
/// `first_id` on, in order, so that no two are alike.
pub proof fn lemma_decoded_ids(layout: LayoutView, first_id: usize)
    requires
        layout.rejection() is None,
        first_id + layout.leaf_count() <= usize::MAX,
    ensures
        layout.leaf_count() >= 1,
        layout.decoded(first_id).leaves().len() == layout.leaf_count(),
        forall|i: int|
            0 <= i < layout.leaf_count() ==> (#[trigger] layout.decoded(
                first_id,
            ).leaves()[i]).id == first_id + i,
        forall|id: usize| #[trigger]
            layout.decoded(first_id).has_id(id) <==> first_id <= id < first_id
                + layout.leaf_count(),
        layout.decoded(first_id).distinct(),
    decreases layout,
{
    let tree = layout.decoded(first_id);
    if layout.is_split() {
        let a = layout.children[0];
        let b = layout.children[1];
        let middle = (first_id + a.leaf_count()) as usize;
        lemma_decoded_ids(a, first_id);
        lemma_decoded_ids(b, middle);
        assert(tree.leaves() =~= a.decoded(first_id).leaves() + b.decoded(middle).leaves());
        assert forall|id: usize| #[trigger]
            tree.has_id(id) <==> first_id <= id < first_id + layout.leaf_count() by {
            assert(tree.has_id(id) <==> a.decoded(first_id).has_id(id) || b.decoded(
                middle,
            ).has_id(id));
        }
        assert forall|id: usize|
            !(#[trigger] a.decoded(first_id).has_id(id) && b.decoded(middle).has_id(id)) by {}
    } else {
        assert forall|id: usize| #[trigger]
            tree.has_id(id) <==> first_id <= id < first_id + layout.leaf_count() by {}
    }
}

/// Saving and loading gives the same arrangement back. The layout of a tree
/// has no fault and one terminal for each leaf, and the tree that it stands
/// for has the same splits and orientations and leaves with the same titles,
/// colours and working directories as the tree had, its working directories
/// brought up to date; only the identifiers are other ones. Where no session
/// of the tree reports a live URI, that is the tree itself.
pub proof fn lemma_round_trip(tree: NodeView, live: Map<usize, Seq<char>>, first_id: usize)
    ensures
        tree.layout(live).rejection() is None,
        tree.layout(live).leaf_count() == tree.leaves().len(),
        tree.layout(live).decoded(first_id).same_arrangement(tree.with_live_dirs(live)),
        tree.leaves().len() == tree.with_live_dirs(live).leaves().len(),
        (forall|id: usize| tree.has_id(id) ==> !live.contains_key(id)) ==> tree.with_live_dirs(
            live,
        ) == tree,
    decreases tree,
{
    match tree {
        NodeView::Leaf(leaf) => {
            assert(tree.has_id(leaf.id));
        },
        NodeView::Split { orientation, first, second } => {
            let doc = tree.layout(live);
            let middle = (first_id + doc.children[0].leaf_count()) as usize;
            lemma_split_type_reads_back(orientation);
            lemma_round_trip(*first, live, first_id);
            lemma_round_trip(*second, live, middle);
            assert(doc.children[0] == first.layout(live));
            assert(doc.children[1] == second.layout(live));
            if forall|id: usize| tree.has_id(id) ==> !live.contains_key(id) {
                assert forall|id: usize| first.has_id(id) implies !live.contains_key(id) by {
                    assert(tree.has_id(id));
                }
                assert forall|id: usize| second.has_id(id) implies !live.contains_key(id) by {
                    assert(tree.has_id(id));
                }
            }
        },
    }
}

/// One edit of a session: a split of a leaf, or the removal of one.
pub enum Edit {
    Split { target: usize, orientation: SplitType, current_dir: Seq<char> },
    Remove { target: usize },
}

/// A session as a value: its tree, and the number that its counter hands out
/// next.
pub struct SessionView {
    pub tree: NodeView,
    pub next: usize,
}

impl SessionView {
    /// Whether the identifiers of the tree are distinct and all below the
    /// counter.
    pub open spec fn wf(self) -> bool {
        self.tree.distinct() && self.tree.ids_below(self.next)
    }

    /// The session after one edit. An edit that is refused changes nothing:
    /// a split or a removal of a leaf that is not there, a removal of the
    /// only leaf, a split when the counter is exhausted.
    pub open spec fn after(self, edit: Edit) -> SessionView {
        match edit {
            Edit::Split { target, orientation, current_dir } => if self.tree.has_id(target)
                && self.next < usize::MAX {
                SessionView {
                    tree: self.tree.split_leaf(
                        target,
                        orientation,
                        fresh_leaf(self.next, current_dir),
                    ),
                    next: (self.next + 1) as usize,
                }
            } else {
                self
            },
            Edit::Remove { target } => SessionView {
                tree: self.tree.without(target),
                next: self.next,
            },
        }
    }

    /// The session after a sequence of edits, one after the other.
    pub open spec fn after_all(self, edits: Seq<Edit>) -> SessionView
        decreases edits.len(),
    {
        if edits.len() == 0 {
            self
        } else {
            self.after_all(edits.drop_last()).after(edits.last())
        }
    }
}

/// One edit keeps a session well formed, never moves the counter down, and
/// never brings back an identifier that was handed out before and is no
/// longer in the tree.
pub proof fn lemma_edit_keeps_ids_unique(session: SessionView, edit: Edit)
    requires
        session.wf(),
    ensures
        session.after(edit).wf(),
        session.next <= session.after(edit).next,
        forall|id: usize|
            id < session.next && !session.tree.has_id(id) ==> !(#[trigger] session.after(
                edit,
            ).tree.has_id(id)),
{
    let next = session.after(edit);
    match edit {
        Edit::Split { target, orientation, current_dir } => {
            if session.tree.has_id(target) && session.next < usize::MAX {
                let fresh = fresh_leaf(session.next, current_dir);
                lemma_split_distinct(session.tree, target, orientation, fresh);
                assert forall|id: usize| #[trigger]
                    next.tree.has_id(id) <==> session.tree.has_id(id) || id == session.next by {
                    lemma_split_has_id(session.tree, target, orientation, fresh, id);
                }
            }
        },
        Edit::Remove { target } => {
            lemma_without_distinct(session.tree, target);
            if session.tree is Split && session.tree.has_id(target) {
                assert forall|id: usize| #[trigger]
                    next.tree.has_id(id) <==> session.tree.has_id(id) && id != target by {
                    lemma_without_has_id(session.tree, target, id);
                }
            }
        },
    }
}

/// Identifiers stay unique however long a session lasts. After any sequence
/// of splits and removals no two leaves share an identifier, every
/// identifier in the tree is below the counter, and an identifier that was
/// handed out before the sequence and was not in the tree at its start (one
/// of a leaf that was taken out, say) is not in the tree at its end.
pub proof fn lemma_ids_stay_unique(session: SessionView, edits: Seq<Edit>)
    requires
        session.wf(),
    ensures
        session.after_all(edits).wf(),
        session.after_all(edits).tree.ids().no_duplicates(),
        session.next <= session.after_all(edits).next,
        forall|id: usize|
            id < session.next && !session.tree.has_id(id) ==> !(#[trigger] session.after_all(
                edits,
            ).tree.has_id(id)),
    decreases edits.len(),
{
    if edits.len() > 0 {
        let before = session.after_all(edits.drop_last());
        lemma_ids_stay_unique(session, edits.drop_last());
        lemma_edit_keeps_ids_unique(before, edits.last());
    }
    lemma_distinct_ids(session.after_all(edits).tree);
}

} // verus!
