use spliterma::{
    recolor_terminal, record_working_dir, rename_terminal, split_terminal, stop_terminal,
    update_leaf, Branch, IdCounter, LeafChange, PaneNode, PaneTree, RemoveOutcome, SplitType,
    TreeError, TreePosition,
};

fn leaf(id: usize, title: &str, color_index: usize, working_dir: &str) -> PaneNode {
    PaneNode::Leaf {
        id,
        title: title.to_string(),
        color_index,
        working_dir: working_dir.to_string(),
    }
}

fn split(orientation: SplitType, first: PaneNode, second: PaneNode) -> PaneNode {
    PaneNode::Split { orientation, first: Box::new(first), second: Box::new(second) }
}

fn start() -> (PaneTree, IdCounter) {
    let mut counter = IdCounter::new();
    let tree = PaneTree::new(&mut counter, "Terminal 1", 0, None, "/home/user");
    (tree, counter)
}

/// Leaves 1, 4, 2, 3 in this order: ((1 | 4) - (2 | 3)).
fn four_panes() -> (PaneTree, IdCounter) {
    let (mut tree, mut counter) = start();
    assert_eq!(split_terminal(&mut tree, &mut counter, 1, SplitType::Vertical, "/a"), Ok(2));
    assert_eq!(split_terminal(&mut tree, &mut counter, 2, SplitType::Horizontal, "/b"), Ok(3));
    assert_eq!(split_terminal(&mut tree, &mut counter, 1, SplitType::Horizontal, "/c"), Ok(4));
    (tree, counter)
}

#[test]
fn new_tree_is_one_leaf_with_the_counters_first_number() {
    let (tree, counter) = start();
    assert_eq!(tree.root(), &leaf(1, "Terminal 1", 0, "/home/user"));
    assert_eq!(counter.peek(), 2);
    assert_eq!(tree.leaf_ids(), vec![1]);
    assert!(tree.is_issued_by(&counter));
}

#[test]
fn new_tree_keeps_a_requested_working_dir() {
    let mut counter = IdCounter::starting_at(40);
    let tree = PaneTree::new(&mut counter, "Build", 5, Some("/srv/build"), "/home/user");
    assert_eq!(tree.root(), &leaf(40, "Build", 5, "/srv/build"));
    assert_eq!(counter.peek(), 41);
}

#[test]
fn split_twice_then_remove_restores_first_split() {
    let (mut tree, mut counter) = start();

    let second = split_terminal(&mut tree, &mut counter, 1, SplitType::Horizontal, "/home/user");
    assert_eq!(second, Ok(2));
    let after_first_split = split(
        SplitType::Horizontal,
        leaf(1, "Terminal 1", 0, "/home/user"),
        leaf(2, "Terminal 2", 2, "/home/user"),
    );
    assert_eq!(tree.root(), &after_first_split);

    let third = split_terminal(&mut tree, &mut counter, 2, SplitType::Vertical, "/home/user");
    assert_eq!(third, Ok(3));
    assert_eq!(
        tree.root(),
        &split(
            SplitType::Horizontal,
            leaf(1, "Terminal 1", 0, "/home/user"),
            split(
                SplitType::Vertical,
                leaf(2, "Terminal 2", 2, "/home/user"),
                leaf(3, "Terminal 3", 3, "/home/user"),
            ),
        )
    );

    assert_eq!(stop_terminal(&mut tree, 3), Ok(RemoveOutcome::Spliced));
    assert_eq!(tree.root(), &after_first_split);

    let fourth = split_terminal(&mut tree, &mut counter, 1, SplitType::Vertical, "/home/user");
    assert_eq!(fourth, Ok(4));
    assert_eq!(tree.leaf_ids(), vec![1, 4, 2]);
}

#[test]
fn split_keeps_every_leaf_and_adds_one_after_the_target() {
    let (mut tree, mut counter) = four_panes();
    assert_eq!(tree.leaf_ids(), vec![1, 4, 2, 3]);
    let before = tree.clone();

    assert_eq!(split_terminal(&mut tree, &mut counter, 2, SplitType::Vertical, "/d"), Ok(5));

    assert_eq!(tree.leaf_ids(), vec![1, 4, 2, 5, 3]);
    for id in [1, 4, 2, 3] {
        assert_eq!(tree.leaf(id), before.leaf(id));
    }
    assert_eq!(tree.leaf(5), Some(&leaf(5, "Terminal 5", 5, "/d")));
    assert_eq!(
        tree.root(),
        &split(
            SplitType::Vertical,
            split(
                SplitType::Horizontal,
                leaf(1, "Terminal 1", 0, "/home/user"),
                leaf(4, "Terminal 4", 4, "/c"),
            ),
            split(
                SplitType::Horizontal,
                split(
                    SplitType::Vertical,
                    leaf(2, "Terminal 2", 2, "/a"),
                    leaf(5, "Terminal 5", 5, "/d"),
                ),
                leaf(3, "Terminal 3", 3, "/b"),
            ),
        )
    );
}

#[test]
fn split_colour_wraps_round_the_palette() {
    let mut counter = IdCounter::starting_at(8);
    let mut tree = PaneTree::new(&mut counter, "First", 0, None, "/");
    assert_eq!(split_terminal(&mut tree, &mut counter, 8, SplitType::Vertical, "/"), Ok(9));
    assert_eq!(tree.leaf(9), Some(&leaf(9, "Terminal 9", 1, "/")));
    let mut late = IdCounter::starting_at(16);
    let mut other = PaneTree::new(&mut late, "First", 0, None, "/");
    late = IdCounter::starting_at(1000);
    assert_eq!(split_terminal(&mut other, &mut late, 16, SplitType::Vertical, "/"), Ok(1000));
    assert_eq!(other.leaf(1000), Some(&leaf(1000, "Terminal 1000", 0, "/")));
}

#[test]
fn split_of_a_missing_leaf_changes_nothing() {
    let (mut tree, mut counter) = four_panes();
    let before = tree.clone();
    let result = split_terminal(&mut tree, &mut counter, 9, SplitType::Vertical, "/x");
    assert_eq!(result, Err(TreeError::NotFound));
    assert_eq!(tree, before);
    assert_eq!(counter.peek(), 5);
}

#[test]
fn split_then_remove_of_the_new_leaf_gives_the_tree_back() {
    for target in [1, 4, 2, 3] {
        let (mut tree, mut counter) = four_panes();
        let before = tree.clone();
        let made = split_terminal(&mut tree, &mut counter, target, SplitType::Horizontal, "/x");
        assert_eq!(made, Ok(5));
        assert_ne!(tree, before);
        assert_eq!(stop_terminal(&mut tree, 5), Ok(RemoveOutcome::Spliced));
        assert_eq!(tree, before);
    }
}

#[test]
fn split_then_remove_on_a_single_leaf_gives_the_leaf_back() {
    let (mut tree, mut counter) = start();
    let before = tree.clone();
    assert_eq!(split_terminal(&mut tree, &mut counter, 1, SplitType::Vertical, "/x"), Ok(2));
    assert_eq!(stop_terminal(&mut tree, 2), Ok(RemoveOutcome::NewRoot));
    assert_eq!(tree, before);
}

#[test]
fn remove_of_the_last_leaf_is_refused() {
    let (mut tree, _counter) = start();
    let before = tree.clone();
    assert_eq!(stop_terminal(&mut tree, 1), Err(TreeError::LastLeaf));
    assert_eq!(tree, before);
}

#[test]
fn remove_of_a_missing_leaf_is_refused() {
    let (mut tree, _counter) = four_panes();
    let before = tree.clone();
    assert_eq!(stop_terminal(&mut tree, 77), Err(TreeError::NotFound));
    assert_eq!(tree, before);

    let (mut single, _counter) = start();
    assert_eq!(stop_terminal(&mut single, 2), Err(TreeError::NotFound));
    assert_eq!(single.leaf_ids(), vec![1]);
}

#[test]
fn remove_promotes_the_sibling_into_the_parents_place() {
    let (mut tree, _counter) = four_panes();
    assert_eq!(stop_terminal(&mut tree, 1), Ok(RemoveOutcome::Spliced));
    assert_eq!(
        tree.root(),
        &split(
            SplitType::Vertical,
            leaf(4, "Terminal 4", 4, "/c"),
            split(
                SplitType::Horizontal,
                leaf(2, "Terminal 2", 2, "/a"),
                leaf(3, "Terminal 3", 3, "/b"),
            ),
        )
    );
    assert_eq!(stop_terminal(&mut tree, 4), Ok(RemoveOutcome::NewRoot));
    assert_eq!(
        tree.root(),
        &split(
            SplitType::Horizontal,
            leaf(2, "Terminal 2", 2, "/a"),
            leaf(3, "Terminal 3", 3, "/b"),
        )
    );
    assert_eq!(stop_terminal(&mut tree, 3), Ok(RemoveOutcome::NewRoot));
    assert_eq!(tree.root(), &leaf(2, "Terminal 2", 2, "/a"));
    assert_eq!(stop_terminal(&mut tree, 2), Err(TreeError::LastLeaf));
}

#[test]
fn remove_of_a_second_child_promotes_the_first() {
    let (mut tree, _counter) = four_panes();
    assert_eq!(stop_terminal(&mut tree, 3), Ok(RemoveOutcome::Spliced));
    assert_eq!(tree.leaf_ids(), vec![1, 4, 2]);
    assert_eq!(
        tree.root(),
        &split(
            SplitType::Vertical,
            split(
                SplitType::Horizontal,
                leaf(1, "Terminal 1", 0, "/home/user"),
                leaf(4, "Terminal 4", 4, "/c"),
            ),
            leaf(2, "Terminal 2", 2, "/a"),
        )
    );
}

#[test]
fn find_leaf_gives_the_branches_from_the_root() {
    let (tree, _counter) = four_panes();
    assert_eq!(tree.find_leaf(1), Some(vec![Branch::First, Branch::First]));
    assert_eq!(tree.find_leaf(4), Some(vec![Branch::First, Branch::Second]));
    assert_eq!(tree.find_leaf(2), Some(vec![Branch::Second, Branch::First]));
    assert_eq!(tree.find_leaf(3), Some(vec![Branch::Second, Branch::Second]));
    assert_eq!(tree.find_leaf(5), None);
    let (single, _counter) = start();
    assert_eq!(single.find_leaf(1), Some(vec![]));
    assert_eq!(single.find_leaf(0), None);
}

#[test]
fn contains_and_leaf_agree_with_the_leaves() {
    let (tree, _counter) = four_panes();
    for id in [1, 2, 3, 4] {
        assert!(tree.contains(id));
        assert!(tree.leaf(id).is_some());
    }
    assert!(!tree.contains(0));
    assert_eq!(tree.leaf(0), None);
    assert_eq!(tree.leaf(3), Some(&leaf(3, "Terminal 3", 3, "/b")));
}

#[test]
fn ids_stay_unique_over_many_edits() {
    let (mut tree, mut counter) = start();
    let mut retired: Vec<usize> = Vec::new();
    let mut issued: Vec<usize> = vec![1];
    for round in 0..200usize {
        let ids = tree.leaf_ids();
        let target = ids[(round * 7) % ids.len()];
        let orientation =
            if round % 2 == 0 { SplitType::Horizontal } else { SplitType::Vertical };
        let made = split_terminal(&mut tree, &mut counter, target, orientation, "/w").unwrap();
        assert!(!issued.contains(&made));
        issued.push(made);
        if round % 3 != 0 {
            let ids = tree.leaf_ids();
            let victim = ids[(round * 5) % ids.len()];
            assert!(stop_terminal(&mut tree, victim).is_ok());
            retired.push(victim);
        }
        let live = tree.leaf_ids();
        let mut sorted = live.clone();
        sorted.sort();
        sorted.dedup();
        assert_eq!(sorted.len(), live.len());
        for id in &retired {
            assert!(!live.contains(id));
        }
        assert!(tree.is_issued_by(&counter));
    }
    assert_eq!(counter.peek(), 202);
}

#[test]
fn rename_changes_the_title_only() {
    let (mut tree, _counter) = four_panes();
    assert_eq!(rename_terminal(&mut tree, 2, "logs"), Ok(true));
    assert_eq!(tree.leaf(2), Some(&leaf(2, "logs", 2, "/a")));
    assert_eq!(tree.leaf_ids(), vec![1, 4, 2, 3]);
    assert_eq!(tree.leaf(3), Some(&leaf(3, "Terminal 3", 3, "/b")));
}

#[test]
fn rename_to_nothing_is_not_taken() {
    let (mut tree, _counter) = four_panes();
    let before = tree.clone();
    assert_eq!(rename_terminal(&mut tree, 2, ""), Ok(false));
    assert_eq!(tree, before);
    assert_eq!(rename_terminal(&mut tree, 9, ""), Err(TreeError::NotFound));
    assert_eq!(rename_terminal(&mut tree, 9, "x"), Err(TreeError::NotFound));
    assert_eq!(tree, before);
}

#[test]
fn recolor_and_working_dir_change_one_field() {
    let (mut tree, _counter) = four_panes();
    assert_eq!(recolor_terminal(&mut tree, 4, 11), Ok(()));
    assert_eq!(tree.leaf(4), Some(&leaf(4, "Terminal 4", 11, "/c")));
    assert_eq!(record_working_dir(&mut tree, 4, "/tmp"), Ok(()));
    assert_eq!(tree.leaf(4), Some(&leaf(4, "Terminal 4", 11, "/tmp")));
    assert_eq!(recolor_terminal(&mut tree, 40, 1), Err(TreeError::NotFound));
    assert_eq!(record_working_dir(&mut tree, 40, "/"), Err(TreeError::NotFound));
    assert_eq!(
        update_leaf(&mut tree, 1, LeafChange::Title("one".to_string())),
        Ok(())
    );
    assert_eq!(tree.leaf(1), Some(&leaf(1, "one", 0, "/home/user")));
}

#[test]
fn focus_falls_back_to_the_first_terminal() {
    let (tree, _counter) = four_panes();
    assert_eq!(tree.find_focused_terminal(Some(3)), 3);
    assert_eq!(tree.find_focused_terminal(Some(30)), 1);
    assert_eq!(tree.find_focused_terminal(None), 1);
}

#[test]
fn a_tree_with_foreign_ids_is_not_issued_by_the_counter() {
    let (tree, _counter) = four_panes();
    assert!(!tree.is_issued_by(&IdCounter::starting_at(4)));
    assert!(tree.is_issued_by(&IdCounter::starting_at(5)));
}

#[test]
fn position_of_a_leaf_names_its_slot() {
    let (tree, _counter) = four_panes();
    assert_eq!(
        tree.position_of(4),
        Some(TreePosition::IsSplitChild { parent: vec![Branch::First], slot: Branch::Second })
    );
    assert_eq!(
        tree.position_of(2),
        Some(TreePosition::IsSplitChild { parent: vec![Branch::Second], slot: Branch::First })
    );
    assert_eq!(tree.position_of(8), None);
    let (single, _counter) = start();
    assert_eq!(single.position_of(1), Some(TreePosition::IsRoot));
    let (mut two, mut counter) = start();
    assert_eq!(split_terminal(&mut two, &mut counter, 1, SplitType::Vertical, "/"), Ok(2));
    assert_eq!(
        two.position_of(2),
        Some(TreePosition::IsSplitChild { parent: vec![], slot: Branch::Second })
    );
    assert!(two.is_well_formed());
}

#[test]
fn a_tree_from_a_node_with_a_repeated_id_is_not_well_formed() {
    let twice = PaneTree::from_root(split(
        SplitType::Vertical,
        leaf(1, "a", 0, "/"),
        split(SplitType::Horizontal, leaf(2, "b", 0, "/"), leaf(1, "c", 0, "/")),
    ));
    assert!(!twice.is_well_formed());
    assert_eq!(twice.leaf(1), Some(&leaf(1, "a", 0, "/")));
    assert_eq!(twice.find_leaf(1), Some(vec![Branch::First]));
    let fine = PaneTree::from_root(split(
        SplitType::Vertical,
        leaf(1, "a", 0, "/"),
        leaf(2, "b", 0, "/"),
    ));
    assert!(fine.is_well_formed());
    assert_eq!(fine.leaf_ids(), vec![1, 2]);
}
