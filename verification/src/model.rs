//! The mathematical model of a pane tree: what the contracts of the library
//! speak about.

use vstd::prelude::*;

verus! {

/// The axis along which a pane is divided in two.
#[derive(Clone, Copy, Debug, PartialEq, Eq, Structural)]
pub enum SplitType {
    Horizontal,
    Vertical,
}

/// One step down from a split: into its first (top or left) or its second
/// (bottom or right) child.
#[derive(Clone, Copy, Debug, PartialEq, Eq, Structural)]
pub enum Branch {
    First,
    Second,
}

/// What a leaf records of its terminal session.
pub struct LeafView {
    pub id: usize,
    pub title: Seq<char>,
    pub color_index: usize,
    pub working_dir: Seq<char>,
}

/// A pane tree as a value: a leaf, or a split with its two children in order.
pub enum NodeView {
    Leaf(LeafView),
    Split { orientation: SplitType, first: Box<NodeView>, second: Box<NodeView> },
}

impl NodeView {
    /// The leaves from first to last, each split giving those of its first
    /// child before those of its second.
    pub open spec fn leaves(self) -> Seq<LeafView>
        decreases self,
    {
        match self {
            NodeView::Leaf(leaf) => seq![leaf],
            NodeView::Split { first, second, .. } => first.leaves() + second.leaves(),
        }
    }

    /// The identifiers of the leaves, in the order of `leaves`.
    pub open spec fn ids(self) -> Seq<usize> {
        self.leaves().map_values(|leaf: LeafView| leaf.id)
    }

    /// Whether some leaf carries the identifier.
    pub open spec fn has_id(self, id: usize) -> bool
        decreases self,
    {
        match self {
            NodeView::Leaf(leaf) => leaf.id == id,
            NodeView::Split { first, second, .. } => first.has_id(id) || second.has_id(id),
        }
    }

    /// Whether no identifier is carried by two leaves.
    pub open spec fn distinct(self) -> bool
        decreases self,
    {
        match self {
            NodeView::Leaf(_) => true,
            NodeView::Split { first, second, .. } => {
                &&& first.distinct()
                &&& second.distinct()
                &&& forall|id: usize| !(#[trigger] first.has_id(id) && second.has_id(id))
            },
        }
    }

    /// Whether every identifier in the tree is below the bound.
    pub open spec fn ids_below(self, bound: usize) -> bool {
        forall|id: usize| #[trigger] self.has_id(id) ==> id < bound
    }

    /// The place, among the leaves, of the first that carries the identifier.
    pub open spec fn position(self, id: usize) -> int
        decreases self,
    {
        match self {
            NodeView::Leaf(_) => 0,
            NodeView::Split { first, second, .. } => if first.has_id(id) {
                first.position(id)
            } else {
                first.leaves().len() + second.position(id)
            },
        }
    }

    /// The first leaf, in the order of `leaves`, that carries the identifier.
    pub open spec fn leaf(self, id: usize) -> Option<LeafView>
        decreases self,
    {
        match self {
            NodeView::Leaf(leaf) => if leaf.id == id {
                Some(leaf)
            } else {
                None
            },
            NodeView::Split { first, second, .. } => match first.leaf(id) {
                Some(leaf) => Some(leaf),
                None => second.leaf(id),
            },
        }
    }

    /// The branches that lead from the root to the first leaf, in the order of
    /// `leaves`, that carries the identifier.
    pub open spec fn path_to(self, id: usize) -> Option<Seq<Branch>>
        decreases self,
    {
        match self {
            NodeView::Leaf(leaf) => if leaf.id == id {
                Some(Seq::empty())
            } else {
                None
            },
            NodeView::Split { first, second, .. } => match first.path_to(id) {
                Some(path) => Some(seq![Branch::First] + path),
                None => match second.path_to(id) {
                    Some(path) => Some(seq![Branch::Second] + path),
                    None => None,
                },
            },
        }
    }

    /// The node that a path of branches leads to, where it stays inside the
    /// tree.
    pub open spec fn node_at(self, path: Seq<Branch>) -> Option<NodeView>
        decreases path.len(),
    {
        if path.len() == 0 {
            Some(self)
        } else {
            match self {
                NodeView::Leaf(_) => None,
                NodeView::Split { first, second, .. } => match path[0] {
                    Branch::First => first.node_at(path.skip(1)),
                    Branch::Second => second.node_at(path.skip(1)),
                },
            }
        }
    }

    /// The tree after the leaf with the identifier was split: in its place
    /// stands a split whose first child is that leaf, untouched, and whose
    /// second child is the fresh leaf. A tree without the identifier stays as
    /// it is.
    pub open spec fn split_leaf(self, id: usize, orientation: SplitType, fresh: LeafView) -> NodeView
        decreases self,
    {
        match self {
            NodeView::Leaf(leaf) => if leaf.id == id {
                NodeView::Split {
                    orientation,
                    first: Box::new(self),
                    second: Box::new(NodeView::Leaf(fresh)),
                }
            } else {
                self
            },
            NodeView::Split { orientation: axis, first, second } => if first.has_id(id) {
                NodeView::Split {
                    orientation: axis,
                    first: Box::new(first.split_leaf(id, orientation, fresh)),
                    second,
                }
            } else {
                NodeView::Split {
                    orientation: axis,
                    first,
                    second: Box::new(second.split_leaf(id, orientation, fresh)),
                }
            },
        }
    }

    /// The tree after the leaf with the identifier was taken out: the split
    /// above that leaf is gone, and the leaf's sibling stands where the split
    /// stood. A single leaf, and a tree without the identifier, stay as they
    /// are.
    pub open spec fn without(self, id: usize) -> NodeView
        decreases self,
    {
        match self {
            NodeView::Leaf(_) => self,
            NodeView::Split { orientation, first, second } => if first.has_id(id) {
                if *first is Leaf {
                    *second
                } else {
                    NodeView::Split { orientation, first: Box::new(first.without(id)), second }
                }
            } else if second.has_id(id) {
                if *second is Leaf {
                    *first
                } else {
                    NodeView::Split { orientation, first, second: Box::new(second.without(id)) }
                }
            } else {
                self
            },
        }
    }

    /// The tree with the first leaf that carries the identifier replaced by
    /// another leaf.
    pub open spec fn with_leaf(self, id: usize, leaf: LeafView) -> NodeView
        decreases self,
    {
        match self {
            NodeView::Leaf(old_leaf) => if old_leaf.id == id {
                NodeView::Leaf(leaf)
            } else {
                self
            },
            NodeView::Split { orientation, first, second } => if first.has_id(id) {
                NodeView::Split { orientation, first: Box::new(first.with_leaf(id, leaf)), second }
            } else {
                NodeView::Split { orientation, first, second: Box::new(second.with_leaf(id, leaf)) }
            },
        }
    }

    /// Whether two trees are arranged alike: the same splits with the same
    /// orientations, and leaves that agree in title, colour and working
    /// directory. Identifiers are not compared.
    pub open spec fn same_arrangement(self, other: NodeView) -> bool
        decreases self,
    {
        match self {
            NodeView::Leaf(leaf) => match other {
                NodeView::Leaf(other_leaf) => {
                    &&& leaf.title == other_leaf.title
                    &&& leaf.color_index == other_leaf.color_index
                    &&& leaf.working_dir == other_leaf.working_dir
                },
                NodeView::Split { .. } => false,
            },
            NodeView::Split { orientation, first, second } => match other {
                NodeView::Leaf(_) => false,
                NodeView::Split {
                    orientation: other_orientation,
                    first: other_first,
                    second: other_second,
                } => {
                    &&& orientation == other_orientation
                    &&& first.same_arrangement(*other_first)
                    &&& second.same_arrangement(*other_second)
                },
            },
        }
    }
}

} // verus!
