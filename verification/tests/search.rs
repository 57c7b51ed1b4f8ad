use h5tui::{RowColor, TreeItem, TreeState};

fn leaf(name: &str) -> TreeItem {
    TreeItem::new(vec![name.to_string()], RowColor::Dataset, vec![])
}

fn group(name: &str, children: Vec<TreeItem>) -> TreeItem {
    TreeItem::new(vec![name.to_string()], RowColor::Group, children)
}

fn sample_tree() -> Vec<TreeItem> {
    vec![group("A", vec![leaf("B"), group("C", vec![leaf("D")])])]
}

#[test]
fn search_flags_only_matching_rows() {
    let mut state = TreeState::new(sample_tree());
    state.search(Some(&"B".to_string())).unwrap();
    let rows = state.visible_rows();
    let names: Vec<String> = rows.iter().map(|r| r.contents.join("")).collect();
    assert_eq!(names, vec!["A", "B", "C", "D"]);
    let flags: Vec<bool> = rows.iter().map(|r| r.is_search_match).collect();
    assert_eq!(flags, vec![false, true, false, false]);
}

#[test]
fn search_never_shrinks_the_visible_set() {
    let mut state = TreeState::new(sample_tree());
    let plain = state.visible_rows().len();
    state.search(Some(&"nothing matches this".to_string())).unwrap();
    assert_eq!(state.visible_rows().len(), plain);
    state.search(Some(&".*".to_string())).unwrap();
    assert_eq!(state.visible_rows().len(), plain);
}

#[test]
fn invalid_pattern_is_rejected_and_state_kept() {
    let mut state = TreeState::new(sample_tree());
    state.search(Some(&"B".to_string())).unwrap();
    assert!(state.search(Some(&"[".to_string())).is_err());
    // The previous pattern is still active.
    let rows = state.visible_rows();
    assert!(rows[1].is_search_match);
    assert!(!rows[0].is_search_match);
}

#[test]
fn clearing_search_unflags_everything() {
    let mut state = TreeState::new(sample_tree());
    state.search(Some(&"B".to_string())).unwrap();
    state.search(None).unwrap();
    assert!(state.visible_rows().iter().all(|r| !r.is_search_match));
}

#[test]
fn empty_pattern_matches_every_row() {
    let mut state = TreeState::new(sample_tree());
    state.search(Some(&String::new())).unwrap();
    assert!(state.visible_rows().iter().all(|r| r.is_search_match));
}

#[test]
fn regex_patterns_are_honored() {
    let mut state = TreeState::new(sample_tree());
    state.search(Some(&"[BD]".to_string())).unwrap();
    let flags: Vec<bool> = state.visible_rows().iter().map(|r| r.is_search_match).collect();
    assert_eq!(flags, vec![false, true, false, true]);
}
