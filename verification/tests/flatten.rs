use h5tui::{RowColor, TreeItem, TreeState};

fn leaf(name: &str) -> TreeItem {
    TreeItem::new(vec![name.to_string()], RowColor::Dataset, vec![])
}

fn group(name: &str, children: Vec<TreeItem>) -> TreeItem {
    TreeItem::new(vec![name.to_string()], RowColor::Group, children)
}

/// The tree `A{B, C{D}}`: A and C containers, B and D leaves.
fn sample_tree() -> Vec<TreeItem> {
    vec![group("A", vec![leaf("B"), group("C", vec![leaf("D")])])]
}

#[test]
fn flatten_is_preorder() {
    let state = TreeState::new(sample_tree());
    let rows = state.visible_rows();
    let names: Vec<String> = rows.iter().map(|r| r.contents.join("")).collect();
    assert_eq!(names, vec!["A", "B", "C", "D"]);
    let paths: Vec<Vec<usize>> = rows.iter().map(|r| r.path.clone()).collect();
    assert_eq!(paths, vec![vec![0], vec![0, 0], vec![0, 1], vec![0, 1, 0]]);
    assert_eq!(rows[0].color, RowColor::Group);
    assert_eq!(rows[1].color, RowColor::Dataset);
}

#[test]
fn collapsing_the_root_yields_one_row() {
    let mut state = TreeState::new(sample_tree());
    state.set_expanded(&vec![0], false);
    let rows = state.visible_rows();
    assert_eq!(rows.len(), 1);
    assert_eq!(rows[0].contents, vec!["A"]);
}

#[test]
fn collapsed_node_still_shown_children_omitted() {
    let mut state = TreeState::new(sample_tree());
    state.set_expanded(&vec![0, 1], false);
    let rows = state.visible_rows();
    let names: Vec<String> = rows.iter().map(|r| r.contents.join("")).collect();
    assert_eq!(names, vec!["A", "B", "C"]);
}

#[test]
fn flattening_twice_yields_identical_rows() {
    let mut state = TreeState::new(sample_tree());
    state.search(Some(&"B".to_string())).unwrap();
    let once = state.visible_rows();
    let twice = state.visible_rows();
    assert_eq!(once.len(), twice.len());
    for (a, b) in once.iter().zip(twice.iter()) {
        assert_eq!(a.path, b.path);
        assert_eq!(a.contents, b.contents);
        assert_eq!(a.color, b.color);
        assert_eq!(a.is_search_match, b.is_search_match);
    }
}

#[test]
fn empty_tree_flattens_to_nothing() {
    let state = TreeState::new(vec![]);
    assert!(state.visible_rows().is_empty());
    assert!(state.position().is_none());
}

#[test]
fn expand_all_and_collapse_all() {
    let mut state = TreeState::new(sample_tree());
    state.collapse_all();
    assert_eq!(state.visible_rows().len(), 1);
    assert_eq!(state.position, 0);
    state.expand_all();
    assert_eq!(state.visible_rows().len(), 4);
}

#[test]
fn multi_line_labels_count_and_search_as_one_text() {
    // A two-line label: the row is two units tall and the search text is
    // the concatenation of its lines.
    let tall = TreeItem::new(
        vec!["ab".to_string(), "cd".to_string()],
        RowColor::Group,
        vec![],
    );
    let mut state = TreeState::new(vec![tall]);
    state.search(Some(&"bc".to_string())).unwrap();
    let rows = state.visible_rows();
    assert_eq!(rows.len(), 1);
    assert_eq!(rows[0].contents.len(), 2);
    assert!(rows[0].is_search_match);
}
