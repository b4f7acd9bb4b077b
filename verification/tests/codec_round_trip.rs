use spliterma::{
    build_layout_from_data, check_layout, extract_color_index, extract_layout, layout_fits,
    load_layout, parse_split_type, save_layout, split_terminal, split_type_name, DecodeError,
    IdCounter, PaneNode, PaneTree, SavedLayout, SplitType, TerminalLayout,
};
use std::collections::HashMap;

fn leaf(id: usize, title: &str, color_index: usize, working_dir: &str) -> PaneNode {
    PaneNode::Leaf {
        id,
        title: title.to_string(),
        color_index,
        working_dir: working_dir.to_string(),
    }
}

fn split(orientation: SplitType, first: PaneNode, second: PaneNode) -> PaneNode {
    PaneNode::Split { orientation, first: Box::new(first), second: Box::new(second) }
}

fn terminal(name: &str, color_index: usize, working_dir: &str) -> TerminalLayout {
    TerminalLayout {
        name: name.to_string(),
        color_index,
        working_dir: working_dir.to_string(),
        split_type: None,
        children: vec![],
    }
}

fn division(split_type: &str, children: Vec<TerminalLayout>) -> TerminalLayout {
    TerminalLayout {
        name: "Split".to_string(),
        color_index: 0,
        working_dir: String::new(),
        split_type: Some(split_type.to_string()),
        children,
    }
}

fn three_panes() -> (PaneTree, IdCounter) {
    let mut counter = IdCounter::new();
    let mut tree = PaneTree::new(&mut counter, "main", 6, Some("/srv"), "/home/user");
    assert_eq!(split_terminal(&mut tree, &mut counter, 1, SplitType::Horizontal, "/a"), Ok(2));
    assert_eq!(split_terminal(&mut tree, &mut counter, 2, SplitType::Vertical, "/b"), Ok(3));
    (tree, counter)
}

fn erase_ids(node: &PaneNode) -> PaneNode {
    match node {
        PaneNode::Leaf { title, color_index, working_dir, .. } => PaneNode::Leaf {
            id: 0,
            title: title.clone(),
            color_index: *color_index,
            working_dir: working_dir.clone(),
        },
        PaneNode::Split { orientation, first, second } => PaneNode::Split {
            orientation: *orientation,
            first: Box::new(erase_ids(first)),
            second: Box::new(erase_ids(second)),
        },
    }
}

#[test]
fn layout_of_a_tree_mirrors_it_without_ids() {
    let (tree, _counter) = three_panes();
    let layout = extract_layout(tree.root(), &HashMap::new());
    assert_eq!(
        layout,
        division(
            "Horizontal",
            vec![
                terminal("main", 6, "/srv"),
                division(
                    "Vertical",
                    vec![terminal("Terminal 2", 2, "/a"), terminal("Terminal 3", 3, "/b")],
                ),
            ],
        )
    );
}

#[test]
fn layout_prefers_the_live_directory() {
    let (tree, _counter) = three_panes();
    let mut live = HashMap::new();
    live.insert(1, "file:///var/log".to_string());
    live.insert(2, "file://workstation/opt/tools".to_string());
    live.insert(3, "ssh://elsewhere/home".to_string());
    live.insert(9, "file:///nowhere".to_string());
    let layout = extract_layout(tree.root(), &live);
    assert_eq!(
        layout,
        division(
            "Horizontal",
            vec![
                terminal("main", 6, "/var/log"),
                division(
                    "Vertical",
                    vec![terminal("Terminal 2", 2, "/opt/tools"), terminal("Terminal 3", 3, "/b")],
                ),
            ],
        )
    );
}

#[test]
fn saved_layout_carries_the_version() {
    let (tree, _counter) = three_panes();
    let saved = save_layout(&tree, &HashMap::new());
    assert_eq!(saved.version, "1.0");
    assert_eq!(saved.root, extract_layout(tree.root(), &HashMap::new()));
}

#[test]
fn decode_of_encode_gives_the_arrangement_back() {
    let (tree, mut counter) = three_panes();
    let saved = save_layout(&tree, &HashMap::new());
    let loaded = load_layout(&saved, &mut counter).unwrap();
    assert_eq!(erase_ids(loaded.root()), erase_ids(tree.root()));
    assert_eq!(loaded.leaf_ids(), vec![4, 5, 6]);
    assert_eq!(counter.peek(), 7);
    assert_eq!(
        loaded.root(),
        &split(
            SplitType::Horizontal,
            leaf(4, "main", 6, "/srv"),
            split(
                SplitType::Vertical,
                leaf(5, "Terminal 2", 2, "/a"),
                leaf(6, "Terminal 3", 3, "/b"),
            ),
        )
    );
    assert_eq!(save_layout(&loaded, &HashMap::new()), saved);
}

#[test]
fn two_loads_of_one_layout_share_no_id() {
    let (tree, mut counter) = three_panes();
    let saved = save_layout(&tree, &HashMap::new());
    let once = load_layout(&saved, &mut counter).unwrap();
    let twice = load_layout(&saved, &mut counter).unwrap();
    let mut all = tree.leaf_ids();
    all.extend(once.leaf_ids());
    all.extend(twice.leaf_ids());
    assert_eq!(all, vec![1, 2, 3, 4, 5, 6, 7, 8, 9]);
    assert!(once.is_issued_by(&counter) && twice.is_issued_by(&counter));
}

#[test]
fn decode_of_a_single_terminal() {
    let mut counter = IdCounter::starting_at(10);
    let built = build_layout_from_data(&terminal("solo", 12, "/x"), &mut counter);
    assert_eq!(built, Ok(leaf(10, "solo", 12, "/x")));
    assert_eq!(counter.peek(), 11);
}

#[test]
fn decode_reads_a_node_without_split_type_as_a_terminal() {
    let mut odd = terminal("solo", 1, "/x");
    odd.children = vec![terminal("ignored", 0, "/")];
    let mut counter = IdCounter::new();
    assert_eq!(build_layout_from_data(&odd, &mut counter), Ok(leaf(1, "solo", 1, "/x")));
    assert_eq!(check_layout(&odd), Ok(()));
}

#[test]
fn decode_refuses_a_split_with_one_child() {
    let layout = division("Horizontal", vec![terminal("a", 0, "/")]);
    let mut counter = IdCounter::new();
    assert_eq!(
        build_layout_from_data(&layout, &mut counter),
        Err(DecodeError::MalformedSplit)
    );
    assert_eq!(counter.peek(), 1);
}

#[test]
fn decode_refuses_a_split_with_three_children() {
    let layout = division(
        "Vertical",
        vec![terminal("a", 0, "/"), terminal("b", 0, "/"), terminal("c", 0, "/")],
    );
    let mut counter = IdCounter::new();
    assert_eq!(
        build_layout_from_data(&layout, &mut counter),
        Err(DecodeError::MalformedSplit)
    );
    assert_eq!(check_layout(&division("Vertical", vec![])), Err(DecodeError::MalformedSplit));
}

#[test]
fn decode_refuses_an_unknown_split_type() {
    let layout = division("Diagonal", vec![terminal("a", 0, "/"), terminal("b", 0, "/")]);
    let mut counter = IdCounter::new();
    assert_eq!(
        build_layout_from_data(&layout, &mut counter),
        Err(DecodeError::UnknownOrientation)
    );
    assert_eq!(counter.peek(), 1);
    for text in ["horizontal", "VERTICAL", "", "Vertical ", "Horizonta"] {
        let layout = division(text, vec![terminal("a", 0, "/"), terminal("b", 0, "/")]);
        assert_eq!(check_layout(&layout), Err(DecodeError::UnknownOrientation));
    }
}

#[test]
fn decode_reports_the_first_fault_it_reads() {
    let both = division("Diagonal", vec![terminal("a", 0, "/")]);
    assert_eq!(check_layout(&both), Err(DecodeError::MalformedSplit));

    let deep = division(
        "Horizontal",
        vec![
            division("Sideways", vec![terminal("a", 0, "/"), terminal("b", 0, "/")]),
            division("Vertical", vec![]),
        ],
    );
    assert_eq!(check_layout(&deep), Err(DecodeError::UnknownOrientation));

    let late = division(
        "Horizontal",
        vec![terminal("a", 0, "/"), division("Vertical", vec![terminal("b", 0, "/")])],
    );
    let mut counter = IdCounter::starting_at(5);
    assert_eq!(build_layout_from_data(&late, &mut counter), Err(DecodeError::MalformedSplit));
    assert_eq!(counter.peek(), 5);
    let saved = SavedLayout { version: "1.0".to_string(), root: late };
    assert_eq!(load_layout(&saved, &mut counter), Err(DecodeError::MalformedSplit));
    assert_eq!(counter.peek(), 5);
}

#[test]
fn load_does_not_look_at_the_version() {
    let saved = SavedLayout { version: "7.3".to_string(), root: terminal("a", 2, "/") };
    let mut counter = IdCounter::new();
    let tree = load_layout(&saved, &mut counter).unwrap();
    assert_eq!(tree.root(), &leaf(1, "a", 2, "/"));
}

#[test]
fn layout_fits_counts_the_terminals() {
    let layout = division(
        "Horizontal",
        vec![
            terminal("a", 0, "/"),
            division("Vertical", vec![terminal("b", 0, "/"), terminal("c", 0, "/")]),
        ],
    );
    assert!(layout_fits(&layout, &IdCounter::new()));
    assert!(layout_fits(&layout, &IdCounter::starting_at(usize::MAX - 3)));
    assert!(!layout_fits(&layout, &IdCounter::starting_at(usize::MAX - 2)));
    assert!(!layout_fits(&terminal("a", 0, "/"), &IdCounter::starting_at(usize::MAX)));
    assert!(layout_fits(&terminal("a", 0, "/"), &IdCounter::starting_at(usize::MAX - 1)));
}

#[test]
fn decode_can_use_the_last_numbers_of_the_counter() {
    let layout = division("Vertical", vec![terminal("a", 0, "/"), terminal("b", 1, "/")]);
    let mut counter = IdCounter::starting_at(usize::MAX - 2);
    let built = build_layout_from_data(&layout, &mut counter).unwrap();
    assert_eq!(
        built,
        split(
            SplitType::Vertical,
            leaf(usize::MAX - 2, "a", 0, "/"),
            leaf(usize::MAX - 1, "b", 1, "/"),
        )
    );
    assert_eq!(counter.peek(), usize::MAX);
    assert_eq!(counter.remaining(), 0);
}

#[test]
fn split_type_names_read_back() {
    assert_eq!(split_type_name(SplitType::Horizontal), "Horizontal");
    assert_eq!(split_type_name(SplitType::Vertical), "Vertical");
    assert_eq!(parse_split_type(&"Horizontal".to_string()), Some(SplitType::Horizontal));
    assert_eq!(parse_split_type(&"Vertical".to_string()), Some(SplitType::Vertical));
    assert_eq!(parse_split_type(&"Diagonal".to_string()), None);
}

#[test]
fn colour_index_of_a_node() {
    assert_eq!(extract_color_index(&leaf(1, "a", 13, "/")), 13);
    let node = split(SplitType::Vertical, leaf(1, "a", 13, "/"), leaf(2, "b", 4, "/"));
    assert_eq!(extract_color_index(&node), 0);
}

#[test]
fn layout_builders_and_copies() {
    assert_eq!(TerminalLayout::terminal("a", 3, "/x"), terminal("a", 3, "/x"));
    let made = TerminalLayout::split(
        "Vertical",
        vec![TerminalLayout::terminal("a", 3, "/x"), TerminalLayout::terminal("b", 4, "/y")],
    );
    assert_eq!(made, division("Vertical", vec![terminal("a", 3, "/x"), terminal("b", 4, "/y")]));
    assert_eq!(made.clone(), made);
    let saved = SavedLayout { version: "1.0".to_string(), root: made };
    assert_eq!(saved.clone(), saved);
}
