//! The edits that change the shape of a pane tree: splitting a leaf in two,
//! and taking a leaf out.

use crate::ids::IdCounter;
use crate::lemmas::{
    lemma_path_to, lemma_split_distinct, lemma_split_has_id, lemma_split_leaves,
    lemma_with_leaf, lemma_without_adds_nothing, lemma_without_distinct, lemma_without_has_id,
    lemma_without_leaves,
};
use crate::model::{LeafView, NodeView, SplitType};
use crate::palette::{default_color_index, PALETTE_LEN};
use crate::text::{default_title, terminal_title};
use crate::tree::{PaneNode, PaneTree};
use vstd::prelude::*;

verus! {

/// Why an edit was refused.
#[derive(Clone, Copy, Debug, PartialEq, Eq, Structural)]
pub enum TreeError {
    /// No leaf of the tree carries the identifier.
    NotFound,
    /// The leaf is the only one of the tree.
    LastLeaf,
}

/// What taking a leaf out did to the tree.
#[derive(Clone, Copy, Debug, PartialEq, Eq, Structural)]
pub enum RemoveOutcome {
    /// The leaf hung directly below the root: its sibling is the root now.
    NewRoot,
    /// The leaf hung deeper: its sibling took the place of their parent, and
    /// the root is the node it was.
    Spliced,
}

/// The leaf that a split creates for terminal number `number`.
pub open spec fn fresh_leaf(number: usize, current_dir: Seq<char>) -> LeafView {
    LeafView {
        id: number,
        title: default_title(number as nat),
        color_index: (number % PALETTE_LEN) as usize,
        working_dir: current_dir,
    }
}

fn blank_leaf() -> (node: PaneNode)
    ensures
        node@ is Leaf,
{
    PaneNode::Leaf { id: 0, title: String::new(), color_index: 0, working_dir: String::new() }
}

fn is_leaf_with(node: &PaneNode, id: usize) -> (yes: bool)
    ensures
        yes == (node@ is Leaf && node@.has_id(id)),
{
    match node {
        PaneNode::Leaf { id: own, .. } => *own == id,
        PaneNode::Split { .. } => false,
    }
}

/// Splits the first leaf below `node` that carries the target. Where none
/// does, the node stays as it is and the fresh leaf comes back.
fn split_in(
    node: &mut PaneNode,
    target: usize,
    orientation: SplitType,
    fresh: PaneNode,
) -> (leftover: Option<PaneNode>)
    requires
        fresh@ is Leaf,
    ensures
        final(node)@ == old(node)@.split_leaf(target, orientation, fresh@->Leaf_0),
        leftover is None <==> old(node)@.has_id(target),
        leftover matches Some(back) ==> back == fresh && *final(node) == *old(node),
    decreases *old(node),
{
    match node {
        PaneNode::Leaf { .. } => {
            if is_leaf_with(node, target) {
                let mut target_leaf = blank_leaf();
                std::mem::swap(node, &mut target_leaf);
                *node = PaneNode::Split {
                    orientation,
                    first: Box::new(target_leaf),
                    second: Box::new(fresh),
                };
                None
            } else {
                Some(fresh)
            }
        },
        PaneNode::Split { first, second, .. } => {
            match split_in(&mut **first, target, orientation, fresh) {
                None => None,
                Some(back) => split_in(&mut **second, target, orientation, back),
            }
        },
    }
}

/// Splits the leaf `target` in two. In its place stands a split of the given
/// orientation: its first child is the leaf itself, untouched, its second a
/// new leaf, numbered by the counter, with the default title and colour of
/// that number and the directory of the process as working directory.
/// Returns the new leaf's identifier. Where no leaf carries `target`, the
/// tree and the counter stay as they are.
pub fn split_terminal(
    tree: &mut PaneTree,
    counter: &mut IdCounter,
    target: usize,
    orientation: SplitType,
    current_dir: &str,
) -> (result: Result<usize, TreeError>)
    requires
        old(tree)@.has_id(target) ==> old(counter).has_room(),
    ensures
        old(tree).wf() && old(tree).issued_by(old(counter)) ==> final(tree).wf(),
        old(tree).issued_by(old(counter)) ==> final(tree).issued_by(final(counter)),
        match result {
            Ok(new_id) => {
                &&& old(tree)@.has_id(target)
                &&& new_id == old(counter).next
                &&& final(counter).next == new_id + 1
                &&& final(tree)@ == old(tree)@.split_leaf(
                    target,
                    orientation,
                    fresh_leaf(new_id, current_dir@),
                )
                &&& final(tree)@.leaves() == old(tree)@.leaves().insert(
                    old(tree)@.position(target) + 1,
                    fresh_leaf(new_id, current_dir@),
                )
                &&& forall|id: usize| #[trigger]
                    final(tree)@.has_id(id) <==> old(tree)@.has_id(id) || id == new_id
            },
            Err(error) => {
                &&& error == TreeError::NotFound
                &&& !old(tree)@.has_id(target)
                &&& *final(tree) == *old(tree)
                &&& *final(counter) == *old(counter)
            },
        },
{
    let number: usize = counter.peek();
    let fresh = PaneNode::Leaf {
        id: number,
        title: terminal_title(number),
        color_index: default_color_index(number),
        working_dir: String::from_str(current_dir),
    };
    let ghost leaf = fresh_leaf(number, current_dir@);
    assert(fresh@ == NodeView::Leaf(leaf));
    match split_in(&mut tree.root, target, orientation, fresh) {
        None => {
            counter.next = number + 1;
            proof {
                let before = old(tree)@;
                if old(tree).wf() && old(tree).issued_by(old(counter)) {
                    assert(!before.has_id(number));
                    lemma_split_distinct(before, target, orientation, leaf);
                }
                lemma_split_leaves(before, target, orientation, leaf);
                assert forall|id: usize| #[trigger]
                    final(tree)@.has_id(id) <==> before.has_id(id) || id == number by {
                    lemma_split_has_id(before, target, orientation, leaf, id);
                }
            }
            Ok(number)
        },
        Some(_) => Err(TreeError::NotFound),
    }
}

/// How a removal below a node ended.
enum Removal {
    /// Nothing was taken out: the node is a leaf, or holds no such leaf.
    Absent,
    /// The leaf was a child of the node, and its sibling replaced the node.
    Promoted,
    /// The leaf was taken out further down.
    Below,
}

/// Puts the node's child on the side of `keep` in the node's own place.
fn promote(node: &mut PaneNode, keep_first: bool)
    requires
        old(node)@ is Split,
    ensures
        final(node)@ == if keep_first {
            *old(node)@->first
        } else {
            *old(node)@->second
        },
{
    let mut kept = blank_leaf();
    match node {
        PaneNode::Leaf { .. } => {},
        PaneNode::Split { first, second, .. } => {
            if keep_first {
                std::mem::swap(&mut **first, &mut kept);
            } else {
                std::mem::swap(&mut **second, &mut kept);
            }
        },
    }
    *node = kept;
}

/// Takes the first leaf below `node` that carries the target out of it, and
/// lets its sibling stand where their parent stood.
fn remove_in(node: &mut PaneNode, target: usize) -> (removal: Removal)
    ensures
        final(node)@ == old(node)@.without(target),
        removal is Absent <==> !(old(node)@ is Split && old(node)@.has_id(target)),
        removal is Absent ==> *final(node) == *old(node),
        removal is Promoted <==> old(node)@ is Split && old(node)@.has_id(target) && old(
            node,
        )@.path_to(target).unwrap().len() == 1,
    decreases *old(node),
{
    proof {
        lemma_path_to(old(node)@, target);
        if old(node)@ is Split {
            lemma_path_to(*old(node)@->first, target);
            lemma_path_to(*old(node)@->second, target);
        }
    }
    let first_is_target = match node {
        PaneNode::Leaf { .. } => {
            return Removal::Absent;
        },
        PaneNode::Split { first, .. } => is_leaf_with(first, target),
    };
    if first_is_target {
        promote(node, false);
        return Removal::Promoted;
    }
    let in_first = match node {
        PaneNode::Leaf { .. } => Removal::Absent,
        PaneNode::Split { first, .. } => remove_in(&mut **first, target),
    };
    match in_first {
        Removal::Absent => {},
        _ => {
            return Removal::Below;
        },
    }
    let second_is_target = match node {
        PaneNode::Leaf { .. } => false,
        PaneNode::Split { second, .. } => is_leaf_with(second, target),
    };
    if second_is_target {
        promote(node, true);
        return Removal::Promoted;
    }
    let in_second = match node {
        PaneNode::Leaf { .. } => Removal::Absent,
        PaneNode::Split { second, .. } => remove_in(&mut **second, target),
    };
    match in_second {
        Removal::Absent => Removal::Absent,
        _ => Removal::Below,
    }
}

/// Takes the leaf `target` out of the tree. The split above it goes with it,
/// and the leaf's sibling stands where that split stood; every other node
/// stays where it was. The only leaf of a tree is not taken out: the tree is
/// then left as it is, as it is where no leaf carries `target`.
pub fn stop_terminal(
    tree: &mut PaneTree,
    target: usize,
) -> (result: Result<RemoveOutcome, TreeError>)
    ensures
        forall|id: usize| #[trigger] final(tree)@.has_id(id) ==> old(tree)@.has_id(id),
        old(tree).wf() ==> final(tree).wf(),
        old(tree).wf() ==> (forall|id: usize| #[trigger]
            final(tree)@.has_id(id) <==> old(tree)@.has_id(id) && !(result is Ok && id
                == target)),
        match result {
            Ok(outcome) => {
                &&& old(tree)@.has_id(target)
                &&& old(tree)@ is Split
                &&& final(tree)@ == old(tree)@.without(target)
                &&& final(tree)@.leaves() == old(tree)@.leaves().remove(
                    old(tree)@.position(target),
                )
                &&& outcome == if old(tree)@.path_to(target).unwrap().len() == 1 {
                    RemoveOutcome::NewRoot
                } else {
                    RemoveOutcome::Spliced
                }
            },
            Err(error) => {
                &&& *final(tree) == *old(tree)
                &&& error == if old(tree)@.has_id(target) {
                    TreeError::LastLeaf
                } else {
                    TreeError::NotFound
                }
                &&& old(tree)@.has_id(target) ==> old(tree)@ is Leaf
            },
        },
{
    if is_leaf_with(&tree.root, target) {
        return Err(TreeError::LastLeaf);
    }
    let removal = remove_in(&mut tree.root, target);
    proof {
        let before = old(tree)@;
        assert forall|id: usize| #[trigger] final(tree)@.has_id(id) implies before.has_id(id) by {
            lemma_without_adds_nothing(before, target, id);
        }
        if before.distinct() {
            lemma_without_distinct(before, target);
        }
        if before is Split && before.has_id(target) {
            lemma_without_leaves(before, target);
            if before.distinct() {
                assert forall|id: usize| #[trigger]
                    final(tree)@.has_id(id) <==> before.has_id(id) && id != target by {
                    lemma_without_has_id(before, target, id);
                }
            }
        }
    }
    match removal {
        Removal::Absent => Err(TreeError::NotFound),
        Removal::Promoted => Ok(RemoveOutcome::NewRoot),
        Removal::Below => Ok(RemoveOutcome::Spliced),
    }
}

/// A change to what a leaf records of its session.
#[derive(Debug, PartialEq, Eq)]
pub enum LeafChange {
    Title(String),
    ColorIndex(usize),
    WorkingDir(String),
}

impl LeafChange {
    /// The leaf after the change: one field is new, the identifier and the
    /// other fields stay.
    pub open spec fn applied_to(self, leaf: LeafView) -> LeafView {
        match self {
            LeafChange::Title(title) => LeafView { title: title@, ..leaf },
            LeafChange::ColorIndex(color_index) => LeafView { color_index, ..leaf },
            LeafChange::WorkingDir(dir) => LeafView { working_dir: dir@, ..leaf },
        }
    }
}

impl NodeView {
    /// The tree after a change to the leaf with the identifier. A tree
    /// without the identifier stays as it is.
    pub open spec fn with_change(self, id: usize, change: LeafChange) -> NodeView {
        match self.leaf(id) {
            Some(leaf) => self.with_leaf(id, change.applied_to(leaf)),
            None => self,
        }
    }
}

/// Changes the first leaf below `node` that carries the identifier. Where
/// none does, the node stays as it is and the change comes back.
fn change_in(node: &mut PaneNode, id: usize, change: LeafChange) -> (leftover: Option<LeafChange>)
    ensures
        final(node)@ == old(node)@.with_change(id, change),
        leftover is None <==> old(node)@.has_id(id),
        leftover matches Some(back) ==> back == change && *final(node) == *old(node),
    decreases *old(node),
{
    proof {
        lemma_path_to(old(node)@, id);
        if old(node)@ is Split {
            lemma_path_to(*old(node)@->first, id);
            lemma_path_to(*old(node)@->second, id);
        }
    }
    match node {
        PaneNode::Leaf { id: own, title, color_index, working_dir } => {
            if *own != id {
                return Some(change);
            }
            match change {
                LeafChange::Title(text) => {
                    *title = text;
                },
                LeafChange::ColorIndex(index) => {
                    *color_index = index;
                },
                LeafChange::WorkingDir(dir) => {
                    *working_dir = dir;
                },
            }
            None
        },
        PaneNode::Split { first, second, .. } => {
            match change_in(&mut **first, id, change) {
                None => None,
                Some(back) => change_in(&mut **second, id, back),
            }
        },
    }
}

/// Records a change in the leaf `target`: a new title, colour index or
/// working directory. The shape of the tree, the identifiers and every other
/// leaf stay as they are. Where no leaf carries `target`, so does the tree.
pub fn update_leaf(
    tree: &mut PaneTree,
    target: usize,
    change: LeafChange,
) -> (result: Result<(), TreeError>)
    ensures
        old(tree).wf() ==> final(tree).wf(),
        final(tree)@.ids() == old(tree)@.ids(),
        forall|id: usize| #[trigger] final(tree)@.has_id(id) <==> old(tree)@.has_id(id),
        final(tree)@ == old(tree)@.with_change(target, change),
        match result {
            Ok(_) => {
                &&& old(tree)@.has_id(target)
                &&& final(tree)@.leaves() == old(tree)@.leaves().update(
                    old(tree)@.position(target),
                    change.applied_to(old(tree)@.leaf(target).unwrap()),
                )
            },
            Err(error) => {
                &&& error == TreeError::NotFound
                &&& !old(tree)@.has_id(target)
                &&& *final(tree) == *old(tree)
            },
        },
{
    proof {
        lemma_path_to(old(tree)@, target);
        if old(tree)@.has_id(target) {
            lemma_with_leaf(
                old(tree)@,
                target,
                change.applied_to(old(tree)@.leaf(target).unwrap()),
            );
        }
    }
    match change_in(&mut tree.root, target, change) {
        None => Ok(()),
        Some(_) => Err(TreeError::NotFound),
    }
}

/// Gives the leaf `target` a new title. An empty title is not taken: the
/// leaf then keeps the one it has, and the result is `Ok(false)`.
pub fn rename_terminal(
    tree: &mut PaneTree,
    target: usize,
    title: &str,
) -> (result: Result<bool, TreeError>)
    ensures
        old(tree).wf() ==> final(tree).wf(),
        final(tree)@.ids() == old(tree)@.ids(),
        match result {
            Ok(renamed) => {
                &&& old(tree)@.has_id(target)
                &&& renamed == (title@.len() > 0)
                &&& renamed ==> final(tree)@ == old(tree)@.with_leaf(
                    target,
                    LeafView { title: title@, ..old(tree)@.leaf(target).unwrap() },
                )
                &&& !renamed ==> *final(tree) == *old(tree)
            },
            Err(error) => {
                &&& error == TreeError::NotFound
                &&& !old(tree)@.has_id(target)
                &&& *final(tree) == *old(tree)
            },
        },
{
    if title.unicode_len() == 0 {
        if tree.contains(target) {
            Ok(false)
        } else {
            Err(TreeError::NotFound)
        }
    } else {
        proof {
            lemma_path_to(old(tree)@, target);
        }
        match update_leaf(tree, target, LeafChange::Title(String::from_str(title))) {
            Ok(_) => Ok(true),
            Err(error) => Err(error),
        }
    }
}

/// Gives the leaf `target` the colour index that was picked.
pub fn recolor_terminal(
    tree: &mut PaneTree,
    target: usize,
    color_index: usize,
) -> (result: Result<(), TreeError>)
    ensures
        old(tree).wf() ==> final(tree).wf(),
        final(tree)@.ids() == old(tree)@.ids(),
        match result {
            Ok(_) => {
                &&& old(tree)@.has_id(target)
                &&& final(tree)@ == old(tree)@.with_leaf(
                    target,
                    LeafView { color_index, ..old(tree)@.leaf(target).unwrap() },
                )
            },
            Err(error) => {
                &&& error == TreeError::NotFound
                &&& !old(tree)@.has_id(target)
                &&& *final(tree) == *old(tree)
            },
        },
{
    proof {
        lemma_path_to(old(tree)@, target);
    }
    update_leaf(tree, target, LeafChange::ColorIndex(color_index))
}

/// Records the working directory that the session of leaf `target` was last
/// seen in.
pub fn record_working_dir(
    tree: &mut PaneTree,
    target: usize,
    working_dir: &str,
) -> (result: Result<(), TreeError>)
    ensures
        old(tree).wf() ==> final(tree).wf(),
        final(tree)@.ids() == old(tree)@.ids(),
        match result {
            Ok(_) => {
                &&& old(tree)@.has_id(target)
                &&& final(tree)@ == old(tree)@.with_leaf(
                    target,
                    LeafView { working_dir: working_dir@, ..old(tree)@.leaf(target).unwrap() },
                )
            },
            Err(error) => {
                &&& error == TreeError::NotFound
                &&& !old(tree)@.has_id(target)
                &&& *final(tree) == *old(tree)
            },
        },
{
    proof {
        lemma_path_to(old(tree)@, target);
    }
    update_leaf(tree, target, LeafChange::WorkingDir(String::from_str(working_dir)))
}

} // verus!
