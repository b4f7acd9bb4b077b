//! The pane tree itself and the read-only walks over it.

use crate::ids::{next_terminal_number, IdCounter};
use crate::lemmas::{lemma_distinct_ids, lemma_path_to};
use crate::model::{Branch, LeafView, NodeView, SplitType};
use vstd::prelude::*;

verus! {

/// A node of the pane tree: a terminal session, or a division into two panes.
#[derive(Debug, PartialEq, Eq)]
pub enum PaneNode {
    Leaf { id: usize, title: String, color_index: usize, working_dir: String },
    Split { orientation: SplitType, first: Box<PaneNode>, second: Box<PaneNode> },
}

impl View for PaneNode {
    type V = NodeView;

    open spec fn view(&self) -> NodeView {
        self.model()
    }
}

impl Clone for PaneNode {
    fn clone(&self) -> (copy: PaneNode)
        ensures
            copy@ == self@,
        decreases self,
    {
        match self {
            PaneNode::Leaf { id, title, color_index, working_dir } => PaneNode::Leaf {
                id: *id,
                title: title.clone(),
                color_index: *color_index,
                working_dir: working_dir.clone(),
            },
            PaneNode::Split { orientation, first, second } => {
                let first_copy = (**first).clone();
                let second_copy = (**second).clone();
                PaneNode::Split {
                    orientation: *orientation,
                    first: Box::new(first_copy),
                    second: Box::new(second_copy),
                }
            },
        }
    }
}

impl PaneNode {
    /// The tree below this node as a value.
    pub open spec fn model(&self) -> NodeView
        decreases self,
    {
        match self {
            PaneNode::Leaf { id, title, color_index, working_dir } => NodeView::Leaf(
                LeafView {
                    id: *id,
                    title: title@,
                    color_index: *color_index,
                    working_dir: working_dir@,
                },
            ),
            PaneNode::Split { orientation, first, second } => NodeView::Split {
                orientation: *orientation,
                first: Box::new(first.model()),
                second: Box::new(second.model()),
            },
        }
    }

    /// Whether some leaf below this node carries the identifier.
    pub fn contains(&self, id: usize) -> (found: bool)
        ensures
            found == self@.has_id(id),
        decreases self,
    {
        match self {
            PaneNode::Leaf { id: own, .. } => *own == id,
            PaneNode::Split { first, second, .. } => first.contains(id) || second.contains(id),
        }
    }

    /// The first leaf below this node that carries the identifier.
    pub fn find(&self, id: usize) -> (found: Option<&PaneNode>)
        ensures
            match found {
                Some(leaf) => self@.leaf(id) is Some && leaf@ == NodeView::Leaf(
                    self@.leaf(id).unwrap(),
                ),
                None => self@.leaf(id) is None,
            },
        decreases self,
    {
        match self {
            PaneNode::Leaf { id: own, .. } => if *own == id {
                Some(self)
            } else {
                None
            },
            PaneNode::Split { first, second, .. } => match first.find(id) {
                Some(leaf) => Some(leaf),
                None => second.find(id),
            },
        }
    }

    /// The identifier of the first leaf below this node.
    pub fn first_leaf_id(&self) -> (id: usize)
        ensures
            self@.leaves().len() >= 1,
            id == self@.leaves()[0].id,
            self@.has_id(id),
        decreases self,
    {
        match self {
            PaneNode::Leaf { id, .. } => *id,
            PaneNode::Split { first, .. } => first.first_leaf_id(),
        }
    }

    /// Whether every identifier below this node is smaller than the bound.
    pub fn all_ids_below(&self, bound: usize) -> (yes: bool)
        ensures
            yes == self@.ids_below(bound),
        decreases self,
    {
        match self {
            PaneNode::Leaf { id, .. } => {
                assert(self@.has_id(*id));
                *id < bound
            },
            PaneNode::Split { first, second, .. } => {
                if !first.all_ids_below(bound) {
                    proof {
                        let id = choose|id: usize| first@.has_id(id) && !(id < bound);
                        assert(self@.has_id(id));
                    }
                    return false;
                }
                if !second.all_ids_below(bound) {
                    proof {
                        let id = choose|id: usize| second@.has_id(id) && !(id < bound);
                        assert(self@.has_id(id));
                    }
                    return false;
                }
                assert forall|id: usize| #[trigger] self@.has_id(id) implies id < bound by {
                    assert(first@.has_id(id) || second@.has_id(id));
                }
                true
            },
        }
    }

    /// Appends the identifiers of the leaves below this node, first to last.
    pub fn collect_ids(&self, ids: &mut Vec<usize>)
        ensures
            final(ids)@ == old(ids)@ + self@.ids(),
        decreases self,
    {
        match self {
            PaneNode::Leaf { id, .. } => {
                ids.push(*id);
                assert(final(ids)@ =~= old(ids)@ + self@.ids());
            },
            PaneNode::Split { first, second, .. } => {
                first.collect_ids(ids);
                second.collect_ids(ids);
                assert(final(ids)@ =~= old(ids)@ + self@.ids());
            },
        }
    }

    /// Looks for the identifier below this node, first child before second,
    /// and extends the path by the branches that lead to it.
    pub fn extend_path_to(&self, id: usize, path: &mut Vec<Branch>) -> (found: bool)
        ensures
            found == self@.path_to(id).is_some(),
            found ==> final(path)@ == old(path)@ + self@.path_to(id).unwrap(),
            !found ==> final(path)@ == old(path)@,
        decreases self,
    {
        match self {
            PaneNode::Leaf { id: own, .. } => {
                let found = *own == id;
                assert(old(path)@ + Seq::<Branch>::empty() =~= old(path)@);
                found
            },
            PaneNode::Split { first, second, .. } => {
                path.push(Branch::First);
                if first.extend_path_to(id, path) {
                    assert(final(path)@ =~= old(path)@ + self@.path_to(id).unwrap());
                    return true;
                }
                path.pop();
                path.push(Branch::Second);
                if second.extend_path_to(id, path) {
                    assert(final(path)@ =~= old(path)@ + self@.path_to(id).unwrap());
                    return true;
                }
                path.pop();
                assert(final(path)@ =~= old(path)@);
                false
            },
        }
    }
}

/// Makes the leaf of a new terminal session. Its identifier is the next number
/// of the counter; its working directory is the one asked for, or the
/// directory of the process where none is.
pub fn create_terminal_with_title(
    counter: &mut IdCounter,
    title: &str,
    color_index: usize,
    working_dir: Option<&str>,
    current_dir: &str,
) -> (leaf: PaneNode)
    requires
        old(counter).has_room(),
    ensures
        leaf@ == NodeView::Leaf(
            LeafView {
                id: old(counter).next,
                title: title@,
                color_index,
                working_dir: match working_dir {
                    Some(dir) => dir@,
                    None => current_dir@,
                },
            },
        ),
        final(counter).next == old(counter).next + 1,
{
    let id: usize = next_terminal_number(counter);
    let dir = match working_dir {
        Some(dir) => String::from_str(dir),
        None => String::from_str(current_dir),
    };
    PaneNode::Leaf { id, title: String::from_str(title), color_index, working_dir: dir }
}

/// Where a leaf stands in its tree.
#[derive(Debug, PartialEq, Eq)]
pub enum TreePosition {
    /// The leaf is the root: the tree has no split.
    IsRoot,
    /// The leaf is a child of the split that `parent` leads to, on the side
    /// of `slot`.
    IsSplitChild { parent: Vec<Branch>, slot: Branch },
}

/// The arrangement of panes in one window. Its leaves carry identifiers that
/// differ from one another.
#[derive(Debug, PartialEq, Eq)]
pub struct PaneTree {
    pub(crate) root: PaneNode,
}

impl View for PaneTree {
    type V = NodeView;

    open(crate) spec fn view(&self) -> NodeView {
        self.root@
    }
}

impl Clone for PaneTree {
    fn clone(&self) -> (copy: PaneTree)
        ensures
            copy@ == self@,
    {
        PaneTree { root: self.root.clone() }
    }
}

impl PaneTree {
    /// Whether the tree is well formed: no two leaves share an identifier.
    pub open spec fn wf(&self) -> bool {
        self@.distinct()
    }

    /// Whether every identifier in the tree was handed out by the counter, or
    /// could have been: each is below the counter's next number.
    pub open spec fn issued_by(&self, counter: &IdCounter) -> bool {
        self@.ids_below(counter.next)
    }

    /// A tree of one leaf, as at the start of a session.
    pub fn new(
        counter: &mut IdCounter,
        title: &str,
        color_index: usize,
        working_dir: Option<&str>,
        current_dir: &str,
    ) -> (tree: PaneTree)
        requires
            old(counter).has_room(),
        ensures
            tree@ == NodeView::Leaf(
                LeafView {
                    id: old(counter).next,
                    title: title@,
                    color_index,
                    working_dir: match working_dir {
                        Some(dir) => dir@,
                        None => current_dir@,
                    },
                },
            ),
            final(counter).next == old(counter).next + 1,
            tree.wf(),
            tree.issued_by(final(counter)),
    {
        PaneTree {
            root: create_terminal_with_title(counter, title, color_index, working_dir, current_dir),
        }
    }

    /// The tree that hangs below a node. It is well formed where the
    /// identifiers below the node differ from one another.
    pub fn from_root(root: PaneNode) -> (tree: PaneTree)
        ensures
            tree@ == root@,
            tree.wf() == root@.distinct(),
    {
        PaneTree { root }
    }

    /// The root node, for drawing the tree and for writing it out.
    pub fn root(&self) -> (root: &PaneNode)
        ensures
            root@ == self@,
    {
        &self.root
    }

    /// Whether some leaf carries the identifier.
    pub fn contains(&self, id: usize) -> (found: bool)
        ensures
            found == self@.has_id(id),
    {
        self.root.contains(id)
    }

    /// Whether the tree's identifiers were all handed out by the counter.
    pub fn is_issued_by(&self, counter: &IdCounter) -> (yes: bool)
        ensures
            yes == self.issued_by(counter),
    {
        self.root.all_ids_below(counter.peek())
    }

    /// Where the leaf with the identifier stands: at the root, or in a slot
    /// of the split above it. `None` where no leaf carries the identifier.
    pub fn position_of(&self, id: usize) -> (position: Option<TreePosition>)
        ensures
            match position {
                None => !self@.has_id(id),
                Some(TreePosition::IsRoot) => self@.path_to(id) == Some(Seq::<Branch>::empty()),
                Some(TreePosition::IsSplitChild { parent, slot }) => self@.path_to(id) == Some(
                    parent@.push(slot),
                ),
            },
    {
        match self.find_leaf(id) {
            None => None,
            Some(mut path) => {
                let ghost whole = path@;
                match path.pop() {
                    None => {
                        assert(whole =~= Seq::<Branch>::empty());
                        Some(TreePosition::IsRoot)
                    },
                    Some(slot) => {
                        assert(whole =~= path@.push(slot));
                        Some(TreePosition::IsSplitChild { parent: path, slot })
                    },
                }
            },
        }
    }

    /// The leaf with the identifier, where the tree has one.
    pub fn leaf(&self, id: usize) -> (found: Option<&PaneNode>)
        ensures
            found is Some <==> self@.has_id(id),
            match found {
                Some(leaf) => leaf@ == NodeView::Leaf(self@.leaf(id).unwrap()),
                None => self@.leaf(id) is None,
            },
    {
        proof {
            lemma_path_to(self@, id);
        }
        self.root.find(id)
    }

    /// The terminal that a keyboard action goes to: the focused one where
    /// the tree holds it, else the first terminal of the tree.
    pub fn find_focused_terminal(&self, focused: Option<usize>) -> (id: usize)
        ensures
            self@.has_id(id),
            id == match focused {
                Some(wanted) if self@.has_id(wanted) => wanted,
                _ => self@.leaves()[0].id,
            },
    {
        match focused {
            Some(wanted) => if self.root.contains(wanted) {
                wanted
            } else {
                self.root.first_leaf_id()
            },
            None => self.root.first_leaf_id(),
        }
    }

    /// Whether the tree is well formed: no two leaves share an identifier.
    pub fn is_well_formed(&self) -> (yes: bool)
        ensures
            yes == self.wf(),
    {
        let ids = self.leaf_ids();
        proof {
            lemma_distinct_ids(self@);
        }
        let mut i: usize = 0;
        while i < ids.len()
            invariant
                i <= ids@.len(),
                self.wf() <==> ids@.no_duplicates(),
                forall|a: int, b: int| 0 <= a < i && a < b < ids@.len() ==> ids@[a] != ids@[b],
            decreases ids@.len() - i,
        {
            let mut j: usize = i + 1;
            while j < ids.len()
                invariant
                    i < j <= ids@.len(),
                    self.wf() <==> ids@.no_duplicates(),
                    forall|b: int| i < b < j ==> ids@[i as int] != ids@[b],
                decreases ids@.len() - j,
            {
                if ids[i] == ids[j] {
                    return false;
                }
                j += 1;
            }
            i += 1;
        }
        assert forall|a: int, b: int|
            0 <= a < ids@.len() && 0 <= b < ids@.len() && a != b implies ids@[a] != ids@[b] by {
            if a < b {
            } else {
                assert(ids@[b] != ids@[a]);
            }
        }
        true
    }

    /// The identifiers of the leaves, first to last.
    pub fn leaf_ids(&self) -> (ids: Vec<usize>)
        ensures
            ids@ == self@.ids(),
    {
        let mut ids: Vec<usize> = Vec::new();
        self.root.collect_ids(&mut ids);
        assert(ids@ =~= self@.ids());
        ids
    }

    /// The branches that lead from the root to the leaf with the identifier,
    /// or `None` where no leaf carries it. The search goes depth first, first
    /// child before second, and looks at no node twice.
    pub fn find_leaf(&self, id: usize) -> (path: Option<Vec<Branch>>)
        ensures
            match path {
                Some(branches) => self@.path_to(id) == Some(branches@),
                None => self@.path_to(id) is None,
            },
            path is Some <==> self@.has_id(id),
    {
        let mut branches: Vec<Branch> = Vec::new();
        proof {
            lemma_path_to(self@, id);
        }
        if self.root.extend_path_to(id, &mut branches) {
            assert(branches@ =~= self@.path_to(id).unwrap());
            Some(branches)
        } else {
            None
        }
    }
}

} // verus!
