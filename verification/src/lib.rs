//! Split-pane tree model of a terminal multiplexer: a binary tree whose leaves
//! are terminal sessions and whose inner nodes are oriented splits, together
//! with the edits that keep it well formed and the persisted layout form.

pub mod codec;
pub mod errors;
pub mod ids;
pub mod laws;
pub mod layout;
pub mod lemmas;
pub mod model;
pub mod mutate;
pub mod palette;
pub mod text;
pub mod tree;

pub use codec::{
    build_layout_from_data, check_layout, extract_color_index, extract_layout, layout_fits,
    load_layout, parse_split_type, save_layout, split_type_name,
};
pub use errors::LayoutError;
pub use ids::{next_terminal_number, IdCounter};
pub use layout::{DecodeError, SavedLayout, TerminalLayout};
pub use model::{Branch, SplitType};
pub use mutate::{
    recolor_terminal, record_working_dir, rename_terminal, split_terminal, stop_terminal,
    update_leaf, LeafChange, RemoveOutcome, TreeError,
};
pub use palette::{
    default_color_index, divider_position, palette_color, picker_cell, PALETTE_LEN,
    PICKER_COLUMNS,
};
pub use text::{file_uri_to_path, prefer_live_dir, resolve_working_dir, terminal_title};
pub use tree::{create_terminal_with_title, PaneNode, PaneTree, TreePosition};
