//! The persisted form of a pane tree: a document without identifiers, in
//! which a node is a split where it names a split type and a terminal where
//! it does not.

use crate::model::{LeafView, NodeView, SplitType};
use crate::text::preferred_dir;
use vstd::prelude::*;

verus! {

/// One node of a persisted layout. With a `split_type` it stands for a split
/// and its `children` are read; without one it stands for a terminal and its
/// name, colour and working directory are read.
#[derive(Debug, PartialEq, Eq)]
pub struct TerminalLayout {
    pub name: String,
    pub color_index: usize,
    pub working_dir: String,
    pub split_type: Option<String>,
    pub children: Vec<TerminalLayout>,
}

/// A persisted layout with the version of its format.
#[derive(Debug, PartialEq, Eq)]
pub struct SavedLayout {
    pub version: String,
    pub root: TerminalLayout,
}

/// Why a persisted layout was refused.
#[derive(Clone, Copy, Debug, PartialEq, Eq, Structural)]
pub enum DecodeError {
    /// A split node does not have exactly two children.
    MalformedSplit,
    /// A split node names a split type that is neither of the two known.
    UnknownOrientation,
}

/// A node of a persisted layout as a value.
pub struct LayoutView {
    pub name: Seq<char>,
    pub color_index: usize,
    pub working_dir: Seq<char>,
    pub split_type: Option<Seq<char>>,
    pub children: Seq<LayoutView>,
}

/// A persisted layout as a value.
pub struct SavedLayoutView {
    pub version: Seq<char>,
    pub root: LayoutView,
}

/// The name under which a split type is persisted.
pub open spec fn split_type_text(orientation: SplitType) -> Seq<char> {
    match orientation {
        SplitType::Horizontal => "Horizontal"@,
        SplitType::Vertical => "Vertical"@,
    }
}

/// The split type that a persisted name stands for, if any.
pub open spec fn split_type_of(text: Seq<char>) -> Option<SplitType> {
    if text == "Horizontal"@ {
        Some(SplitType::Horizontal)
    } else if text == "Vertical"@ {
        Some(SplitType::Vertical)
    } else {
        None
    }
}

impl LayoutView {
    /// Whether the node stands for a split.
    pub open spec fn is_split(self) -> bool {
        self.split_type is Some
    }

    /// The first fault of the layout, in the order in which its nodes are
    /// read: a node before its children, the first child before the second.
    /// At a split the number of children is looked at before the split type.
    pub open spec fn rejection(self) -> Option<DecodeError>
        decreases self,
    {
        match self.split_type {
            None => None,
            Some(text) => if self.children.len() != 2 {
                Some(DecodeError::MalformedSplit)
            } else if split_type_of(text) is None {
                Some(DecodeError::UnknownOrientation)
            } else {
                match self.children[0].rejection() {
                    Some(fault) => Some(fault),
                    None => self.children[1].rejection(),
                }
            },
        }
    }

    /// The number of terminals in a layout without fault.
    pub open spec fn leaf_count(self) -> nat
        decreases self,
    {
        if !self.is_split() {
            1
        } else if self.children.len() != 2 {
            0
        } else {
            self.children[0].leaf_count() + self.children[1].leaf_count()
        }
    }

    /// The tree that a layout without fault stands for, its leaves numbered
    /// from `first_id` on in the order in which they are read.
    pub open spec fn decoded(self, first_id: usize) -> NodeView
        decreases self,
    {
        if self.is_split() && self.children.len() == 2 {
            NodeView::Split {
                orientation: split_type_of(self.split_type.unwrap()).unwrap(),
                first: Box::new(self.children[0].decoded(first_id)),
                second: Box::new(
                    self.children[1].decoded(
                        (first_id + self.children[0].leaf_count()) as usize,
                    ),
                ),
            }
        } else {
            NodeView::Leaf(
                LeafView {
                    id: first_id,
                    title: self.name,
                    color_index: self.color_index,
                    working_dir: self.working_dir,
                },
            )
        }
    }
}

/// The live URI of a session among those reported, if it has one.
pub open spec fn live_uri(live: Map<usize, Seq<char>>, id: usize) -> Option<Seq<char>> {
    if live.contains_key(id) {
        Some(live[id])
    } else {
        None
    }
}

impl NodeView {
    /// The tree with each leaf's working directory brought up to date: the
    /// path of the session's live URI where it reports one that names a
    /// path, else the directory recorded in the leaf.
    pub open spec fn with_live_dirs(self, live: Map<usize, Seq<char>>) -> NodeView
        decreases self,
    {
        match self {
            NodeView::Leaf(leaf) => NodeView::Leaf(
                LeafView {
                    working_dir: preferred_dir(live_uri(live, leaf.id), leaf.working_dir),
                    ..leaf
                },
            ),
            NodeView::Split { orientation, first, second } => NodeView::Split {
                orientation,
                first: Box::new(first.with_live_dirs(live)),
                second: Box::new(second.with_live_dirs(live)),
            },
        }
    }

    /// The persisted form of the tree. A leaf gives its title, its colour and
    /// its working directory, brought up to date as in `with_live_dirs`. A
    /// split gives its split type and its two children in order.
    pub open spec fn layout(self, live: Map<usize, Seq<char>>) -> LayoutView
        decreases self,
    {
        match self {
            NodeView::Leaf(leaf) => LayoutView {
                name: leaf.title,
                color_index: leaf.color_index,
                working_dir: preferred_dir(live_uri(live, leaf.id), leaf.working_dir),
                split_type: None,
                children: Seq::empty(),
            },
            NodeView::Split { orientation, first, second } => LayoutView {
                name: "Split"@,
                color_index: 0,
                working_dir: Seq::empty(),
                split_type: Some(split_type_text(orientation)),
                children: seq![first.layout(live), second.layout(live)],
            },
        }
    }
}

impl TerminalLayout {
    /// The node and what hangs below it as a value.
    pub open spec fn model(&self) -> LayoutView
        decreases self,
    {
        LayoutView {
            name: self.name@,
            color_index: self.color_index,
            working_dir: self.working_dir@,
            split_type: match self.split_type {
                Some(text) => Some(text@),
                None => None,
            },
            children: Seq::new(
                self.children@.len(),
                |i: int|
                    if 0 <= i < self.children@.len() {
                        self.children@[i].model()
                    } else {
                        arbitrary()
                    },
            ),
        }
    }
}

impl TerminalLayout {
    /// The layout node of a terminal.
    pub fn terminal(name: &str, color_index: usize, working_dir: &str) -> (layout: TerminalLayout)
        ensures
            layout@ == (LayoutView {
                name: name@,
                color_index,
                working_dir: working_dir@,
                split_type: None,
                children: Seq::empty(),
            }),
    {
        let layout = TerminalLayout {
            name: String::from_str(name),
            color_index,
            working_dir: String::from_str(working_dir),
            split_type: None,
            children: Vec::new(),
        };
        assert(layout@.children =~= Seq::empty());
        layout
    }

    /// The layout node of a split with the given children, which a layout
    /// without fault has two of.
    pub fn split(split_type: &str, children: Vec<TerminalLayout>) -> (layout: TerminalLayout)
        ensures
            layout@.name == "Split"@,
            layout@.color_index == 0,
            layout@.working_dir == Seq::<char>::empty(),
            layout@.split_type == Some(split_type@),
            layout@.children.len() == children@.len(),
            forall|i: int| 0 <= i < children@.len() ==> layout@.children[i] == children@[i]@,
    {
        TerminalLayout {
            name: String::from_str("Split"),
            color_index: 0,
            working_dir: String::new(),
            split_type: Some(String::from_str(split_type)),
            children,
        }
    }
}

impl Clone for TerminalLayout {
    fn clone(&self) -> (copy: TerminalLayout)
        ensures
            copy@ == self@,
        decreases self,
    {
        let mut children: Vec<TerminalLayout> = Vec::new();
        let mut i: usize = 0;
        while i < self.children.len()
            invariant
                i <= self.children@.len(),
                children@.len() == i,
                forall|j: int| 0 <= j < i ==> children@[j]@ == self.children@[j]@,
            decreases self.children@.len() - i,
        {
            let child = self.children[i].clone();
            children.push(child);
            i += 1;
        }
        let split_type = match &self.split_type {
            Some(text) => Some(text.clone()),
            None => None,
        };
        let copy = TerminalLayout {
            name: self.name.clone(),
            color_index: self.color_index,
            working_dir: self.working_dir.clone(),
            split_type,
            children,
        };
        assert(copy@.children =~= self@.children);
        copy
    }
}

impl Clone for SavedLayout {
    fn clone(&self) -> (copy: SavedLayout)
        ensures
            copy@ == self@,
    {
        SavedLayout { version: self.version.clone(), root: self.root.clone() }
    }
}

impl View for TerminalLayout {
    type V = LayoutView;

    open spec fn view(&self) -> LayoutView {
        self.model()
    }
}

impl View for SavedLayout {
    type V = SavedLayoutView;

    open spec fn view(&self) -> SavedLayoutView {
        SavedLayoutView { version: self.version@, root: self.root@ }
    }
}

} // verus!
