//! The faults of the whole application in one type, and which of them the
//! user gets to see.

use crate::layout::DecodeError;
use crate::mutate::TreeError;
use vstd::prelude::*;

verus! {

/// Everything that can go wrong between a user's action and its effect. None
/// of it ends the session.
#[derive(Debug, PartialEq, Eq)]
pub enum LayoutError {
    /// An edit named a leaf that the tree does not hold.
    NotFound,
    /// The only leaf of the tree was to be taken out.
    LastLeaf,
    /// A persisted split does not have exactly two children.
    MalformedSplit,
    /// A persisted split names a split type that is not known.
    UnknownOrientation,
    /// A file could not be read or written; the cause in words.
    IoFailure(String),
    /// A file does not hold a well-formed document; the cause in words.
    ParseFailure(String),
}

impl LayoutError {
    /// Whether the fault is one to tell the user about. An edit of a leaf
    /// that is not there, or of the last leaf, comes from a stale request
    /// and is passed over in silence.
    pub open spec fn shown(self) -> bool {
        !(self is NotFound || self is LastLeaf)
    }

    /// The fault in words.
    pub open spec fn text(self) -> Seq<char> {
        match self {
            LayoutError::NotFound => "No such terminal"@,
            LayoutError::LastLeaf => "The last terminal cannot be removed"@,
            LayoutError::MalformedSplit => "Split must have exactly 2 children"@,
            LayoutError::UnknownOrientation => "Unknown orientation"@,
            LayoutError::IoFailure(cause) => cause@,
            LayoutError::ParseFailure(cause) => cause@,
        }
    }

    /// The fault of an edit as a fault of the application.
    pub fn from_tree_error(error: TreeError) -> (fault: LayoutError)
        ensures
            fault == match error {
                TreeError::NotFound => LayoutError::NotFound,
                TreeError::LastLeaf => LayoutError::LastLeaf,
            },
    {
        match error {
            TreeError::NotFound => LayoutError::NotFound,
            TreeError::LastLeaf => LayoutError::LastLeaf,
        }
    }

    /// The fault of a persisted layout as a fault of the application.
    pub fn from_decode_error(error: DecodeError) -> (fault: LayoutError)
        ensures
            fault == match error {
                DecodeError::MalformedSplit => LayoutError::MalformedSplit,
                DecodeError::UnknownOrientation => LayoutError::UnknownOrientation,
            },
    {
        match error {
            DecodeError::MalformedSplit => LayoutError::MalformedSplit,
            DecodeError::UnknownOrientation => LayoutError::UnknownOrientation,
        }
    }

    /// Whether the fault is one to tell the user about.
    pub fn is_shown(&self) -> (yes: bool)
        ensures
            yes == self.shown(),
    {
        match self {
            LayoutError::NotFound => false,
            LayoutError::LastLeaf => false,
            _ => true,
        }
    }

    /// The fault in words, for a message to the user.
    pub fn message(&self) -> (words: String)
        ensures
            words@ == self.text(),
    {
        match self {
            LayoutError::NotFound => String::from_str("No such terminal"),
            LayoutError::LastLeaf => String::from_str("The last terminal cannot be removed"),
            LayoutError::MalformedSplit => String::from_str("Split must have exactly 2 children"),
            LayoutError::UnknownOrientation => String::from_str("Unknown orientation"),
            LayoutError::IoFailure(cause) => cause.clone(),
            LayoutError::ParseFailure(cause) => cause.clone(),
        }
    }
}

} // verus!
