//! From a pane tree to its persisted layout and back.

use crate::ids::{next_terminal_number, IdCounter};
use crate::laws::lemma_decoded_ids;
use crate::layout::{split_type_of, split_type_text, DecodeError, SavedLayout, TerminalLayout};
use crate::model::{NodeView, SplitType};
use crate::text::prefer_live_dir;
use crate::tree::{PaneNode, PaneTree};
use std::collections::HashMap;
use vstd::prelude::*;

verus! {

/// The live URIs that the sessions report, as texts.
pub open spec fn live_view(live: Map<usize, String>) -> Map<usize, Seq<char>> {
    Map::new(|id: usize| live.contains_key(id), |id: usize| live[id]@)
}

/// The version that a layout is saved under.
pub open spec fn layout_version() -> Seq<char> {
    "1.0"@
}

/// The name under which a split type is persisted.
pub fn split_type_name(orientation: SplitType) -> (name: &'static str)
    ensures
        name@ == split_type_text(orientation),
{
    match orientation {
        SplitType::Horizontal => "Horizontal",
        SplitType::Vertical => "Vertical",
    }
}

/// Reads a persisted split type: one of the two known names, or nothing.
pub fn parse_split_type(text: &String) -> (orientation: Option<SplitType>)
    ensures
        orientation == split_type_of(text@),
{
    if *text == String::from_str("Horizontal") {
        Some(SplitType::Horizontal)
    } else if *text == String::from_str("Vertical") {
        Some(SplitType::Vertical)
    } else {
        None
    }
}

/// The colour index that a node carries: a leaf's own, and 0 for a split.
pub fn extract_color_index(node: &PaneNode) -> (color_index: usize)
    ensures
        color_index == match node@ {
            NodeView::Leaf(leaf) => leaf.color_index,
            NodeView::Split { .. } => 0,
        },
{
    match node {
        PaneNode::Leaf { color_index, .. } => *color_index,
        PaneNode::Split { .. } => 0,
    }
}

/// Writes the tree below a node as a persisted layout. A leaf's working
/// directory is the path of the live URI that its session reports, where
/// there is one that names a path, else the directory recorded in the leaf.
pub fn extract_layout(node: &PaneNode, live: &HashMap<usize, String>) -> (layout: TerminalLayout)
    ensures
        layout@ == node@.layout(live_view(live@)),
    decreases node,
{
    broadcast use vstd::std_specs::hash::group_hash_axioms;

    match node {
        PaneNode::Leaf { id, title, color_index, working_dir } => {
            let reported: Option<&str> = match live.get(id) {
                Some(uri) => Some(uri.as_str()),
                None => None,
            };
            let dir = prefer_live_dir(reported, working_dir.as_str());
            let layout = TerminalLayout {
                name: title.clone(),
                color_index: *color_index,
                working_dir: dir,
                split_type: None,
                children: Vec::new(),
            };
            assert(layout@.children =~= Seq::empty());
            layout
        },
        PaneNode::Split { orientation, first, second } => {
            let mut children: Vec<TerminalLayout> = Vec::new();
            children.push(extract_layout(first, live));
            children.push(extract_layout(second, live));
            let layout = TerminalLayout {
                name: String::from_str("Split"),
                color_index: 0,
                working_dir: String::new(),
                split_type: Some(String::from_str(split_type_name(*orientation))),
                children,
            };
            assert(layout@.children =~= seq![
                first@.layout(live_view(live@)),
                second@.layout(live_view(live@)),
            ]);
            layout
        },
    }
}

/// Writes the tree as a layout to be saved, under the current version.
pub fn save_layout(tree: &PaneTree, live: &HashMap<usize, String>) -> (saved: SavedLayout)
    ensures
        saved@.version == layout_version(),
        saved@.root == tree@.layout(live_view(live@)),
{
    SavedLayout { version: String::from_str("1.0"), root: extract_layout(tree.root(), live) }
}

/// Looks for the first fault of a layout.
pub fn check_layout(layout: &TerminalLayout) -> (result: Result<(), DecodeError>)
    ensures
        match result {
            Ok(_) => layout@.rejection() is None,
            Err(fault) => layout@.rejection() == Some(fault),
        },
    decreases layout,
{
    match &layout.split_type {
        None => Ok(()),
        Some(text) => {
            if layout.children.len() != 2 {
                return Err(DecodeError::MalformedSplit);
            }
            if parse_split_type(text).is_none() {
                return Err(DecodeError::UnknownOrientation);
            }
            match check_layout(&layout.children[0]) {
                Err(fault) => Err(fault),
                Ok(_) => check_layout(&layout.children[1]),
            }
        },
    }
}

/// Takes from `budget` one number for each terminal of the layout: what is
/// left, or `None` where the budget does not reach.
fn take_room(layout: &TerminalLayout, budget: usize) -> (left: Option<usize>)
    ensures
        match left {
            Some(rest) => rest + layout@.leaf_count() == budget,
            None => layout@.leaf_count() > budget,
        },
    decreases layout,
{
    if layout.split_type.is_none() {
        if budget >= 1 {
            Some(budget - 1)
        } else {
            None
        }
    } else if layout.children.len() != 2 {
        Some(budget)
    } else {
        match take_room(&layout.children[0], budget) {
            None => None,
            Some(rest) => take_room(&layout.children[1], rest),
        }
    }
}

/// Whether the counter can number every terminal of the layout.
pub fn layout_fits(layout: &TerminalLayout, counter: &IdCounter) -> (fits: bool)
    ensures
        fits == counter.has_room_for(layout@.leaf_count()),
{
    take_room(layout, counter.remaining()).is_some()
}

/// Builds the tree of a layout that is known to be without fault.
fn build_checked(layout: &TerminalLayout, counter: &mut IdCounter) -> (node: PaneNode)
    requires
        layout@.rejection() is None,
        old(counter).has_room_for(layout@.leaf_count()),
    ensures
        node@ == layout@.decoded(old(counter).next),
        final(counter).next == old(counter).next + layout@.leaf_count(),
    decreases layout,
{
    match &layout.split_type {
        None => {
            let id: usize = next_terminal_number(counter);
            PaneNode::Leaf {
                id,
                title: layout.name.clone(),
                color_index: layout.color_index,
                working_dir: layout.working_dir.clone(),
            }
        },
        Some(text) => {
            let orientation = match parse_split_type(text) {
                Some(orientation) => orientation,
                None => unreached(),
            };
            let first = build_checked(&layout.children[0], counter);
            let second = build_checked(&layout.children[1], counter);
            PaneNode::Split { orientation, first: Box::new(first), second: Box::new(second) }
        },
    }
}

/// Builds the tree that a persisted layout stands for. Its leaves take fresh
/// identifiers from the counter, in the order in which they are read. A
/// layout with a fault is refused, and the counter then stays as it is.
pub fn build_layout_from_data(
    layout: &TerminalLayout,
    counter: &mut IdCounter,
) -> (result: Result<PaneNode, DecodeError>)
    requires
        layout@.rejection() is None ==> old(counter).has_room_for(layout@.leaf_count()),
    ensures
        match result {
            Ok(node) => {
                &&& layout@.rejection() is None
                &&& node@ == layout@.decoded(old(counter).next)
                &&& final(counter).next == old(counter).next + layout@.leaf_count()
                &&& node@.distinct()
                &&& forall|id: usize| #[trigger]
                    node@.has_id(id) <==> old(counter).next <= id < final(counter).next
            },
            Err(fault) => {
                &&& layout@.rejection() == Some(fault)
                &&& *final(counter) == *old(counter)
            },
        },
{
    match check_layout(layout) {
        Err(fault) => Err(fault),
        Ok(_) => {
            proof {
                lemma_decoded_ids(layout@, old(counter).next);
            }
            Ok(build_checked(layout, counter))
        },
    }
}

/// Builds the tree of a saved layout, to take the place of the session's
/// tree. Its leaves take fresh identifiers from the counter; the version is
/// not looked at. A layout with a fault is refused, and the counter then
/// stays as it is.
pub fn load_layout(
    saved: &SavedLayout,
    counter: &mut IdCounter,
) -> (result: Result<PaneTree, DecodeError>)
    requires
        saved@.root.rejection() is None ==> old(counter).has_room_for(saved@.root.leaf_count()),
    ensures
        match result {
            Ok(tree) => {
                &&& saved@.root.rejection() is None
                &&& tree@ == saved@.root.decoded(old(counter).next)
                &&& final(counter).next == old(counter).next + saved@.root.leaf_count()
                &&& tree.wf()
                &&& tree.issued_by(final(counter))
                &&& forall|id: usize| #[trigger]
                    tree@.has_id(id) <==> old(counter).next <= id < final(counter).next
            },
            Err(fault) => {
                &&& saved@.root.rejection() == Some(fault)
                &&& *final(counter) == *old(counter)
            },
        },
{
    match build_layout_from_data(&saved.root, counter) {
        Ok(root) => Ok(PaneTree { root }),
        Err(fault) => Err(fault),
    }
}

} // verus!
