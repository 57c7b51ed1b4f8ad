use h5tui::{Key, Mode, RowColor, RowStyle, TreeItem, TreeState, handle_key, row_indent, row_style};

fn leaf(name: &str) -> TreeItem {
    TreeItem::new(vec![name.to_string()], RowColor::Dataset, vec![])
}

fn group(name: &str, children: Vec<TreeItem>) -> TreeItem {
    TreeItem::new(vec![name.to_string()], RowColor::Group, children)
}

fn sample_tree() -> Vec<TreeItem> {
    vec![group("A", vec![leaf("B"), group("C", vec![leaf("D")])])]
}

#[test]
fn movement_clamps_to_the_visible_rows() {
    let mut state = TreeState::new(sample_tree());
    state.move_up();
    assert_eq!(state.position, 0);
    for _ in 0..10 {
        state.move_down();
    }
    assert_eq!(state.position, 3);
    state.move_up();
    assert_eq!(state.position, 2);
}

#[test]
fn movement_on_an_empty_tree_is_a_no_op() {
    let mut state = TreeState::new(vec![]);
    state.move_down();
    state.move_up();
    state.page_down();
    state.page_up();
    assert_eq!(state.position, 0);
    assert!(state.position().is_none());
}

#[test]
fn paging_scrolls_the_window_to_the_selection() {
    // The scenario over `A{B, C{D}}` with a display two rows tall: moving
    // down twice selects C, paging down once selects D and the window
    // scrolls to show C and D.
    let mut state = TreeState::new(sample_tree());
    state.update_bounds(2);
    assert_eq!((state.start, state.end), (0, 2));
    state.move_down();
    state.update_bounds(2);
    state.move_down();
    state.update_bounds(2);
    assert_eq!(state.position, 2);
    assert_eq!(state.position(), Some(vec![0, 1]));
    state.page_down();
    state.update_bounds(2);
    assert_eq!(state.position, 3);
    assert_eq!(state.position(), Some(vec![0, 1, 0]));
    let rows = state.visible_rows();
    let shown: Vec<String> = rows[state.start..state.end]
        .iter()
        .map(|r| r.contents.join(""))
        .collect();
    assert_eq!(shown, vec!["C", "D"]);
}

#[test]
fn collapsing_above_the_selection_moves_it_to_the_nearest_visible_row() {
    // The scenario: selection on D, collapsing C. The selection moves to
    // the nearest remaining visible row, C.
    let mut state = TreeState::new(sample_tree());
    for _ in 0..3 {
        state.move_down();
    }
    assert_eq!(state.position(), Some(vec![0, 1, 0]));
    state.set_expanded(&vec![0, 1], false);
    assert_eq!(state.position, 2);
    assert_eq!(state.position(), Some(vec![0, 1]));
}

#[test]
fn collapse_key_collapses_the_selected_node() {
    let mut state = TreeState::new(sample_tree());
    let mut mode = Mode::Normal;
    let quit = handle_key(&mut mode, &mut state, Key::Left);
    assert!(!quit);
    assert_eq!(state.visible_rows().len(), 1);
    let quit = handle_key(&mut mode, &mut state, Key::Right);
    assert!(!quit);
    assert_eq!(state.visible_rows().len(), 4);
}

#[test]
fn quit_keys_end_the_session_only_in_normal_mode() {
    let mut state = TreeState::new(sample_tree());
    let mut mode = Mode::Normal;
    assert!(handle_key(&mut mode, &mut state, Key::Char('q')));
    assert!(handle_key(&mut mode, &mut state, Key::Escape));
    handle_key(&mut mode, &mut state, Key::Char('/'));
    assert!(!handle_key(&mut mode, &mut state, Key::Escape));
    assert!(matches!(mode, Mode::Normal));
}

#[test]
fn search_entry_edits_the_buffer_and_the_pattern() {
    let mut state = TreeState::new(sample_tree());
    let mut mode = Mode::Normal;
    handle_key(&mut mode, &mut state, Key::Char('/'));
    match &mode {
        Mode::Search { search } => assert_eq!(search, ""),
        Mode::Normal => panic!("still in normal mode"),
    }
    handle_key(&mut mode, &mut state, Key::Char('B'));
    match &mode {
        Mode::Search { search } => assert_eq!(search, "B"),
        Mode::Normal => panic!("left search mode"),
    }
    let flags: Vec<bool> = state.visible_rows().iter().map(|r| r.is_search_match).collect();
    assert_eq!(flags, vec![false, true, false, false]);
    // Movement keys do nothing while entering a search.
    handle_key(&mut mode, &mut state, Key::Down);
    assert_eq!(state.position, 0);
}

#[test]
fn invalid_edit_is_rolled_back() {
    let mut state = TreeState::new(sample_tree());
    let mut mode = Mode::Normal;
    handle_key(&mut mode, &mut state, Key::Char('/'));
    handle_key(&mut mode, &mut state, Key::Char('B'));
    // "B[" does not compile: the character is rolled back.
    handle_key(&mut mode, &mut state, Key::Char('['));
    match &mode {
        Mode::Search { search } => assert_eq!(search, "B"),
        Mode::Normal => panic!("left search mode"),
    }
    assert!(state.visible_rows()[1].is_search_match);
    // Backspace edits the buffer back to the empty pattern.
    handle_key(&mut mode, &mut state, Key::Backspace);
    match &mode {
        Mode::Search { search } => assert_eq!(search, ""),
        Mode::Normal => panic!("left search mode"),
    }
    assert!(state.visible_rows().iter().all(|r| r.is_search_match));
}

#[test]
fn shifted_keys_expand_and_collapse_everything() {
    let mut state = TreeState::new(sample_tree());
    let mut mode = Mode::Normal;
    handle_key(&mut mode, &mut state, Key::ShiftChar('H'));
    assert_eq!(state.visible_rows().len(), 1);
    handle_key(&mut mode, &mut state, Key::ShiftChar('L'));
    assert_eq!(state.visible_rows().len(), 4);
    handle_key(&mut mode, &mut state, Key::ShiftLeft);
    assert_eq!(state.visible_rows().len(), 1);
    handle_key(&mut mode, &mut state, Key::ShiftRight);
    assert_eq!(state.visible_rows().len(), 4);
}

#[test]
fn selection_highlight_is_suppressed_during_search() {
    assert_eq!(row_style(true, false, false), RowStyle::Selected);
    assert_eq!(row_style(true, true, false), RowStyle::Plain);
    assert_eq!(row_style(true, true, true), RowStyle::SearchMatch);
    assert_eq!(row_style(false, true, true), RowStyle::SearchMatch);
    assert_eq!(row_style(false, false, false), RowStyle::Plain);
}

#[test]
fn rows_indent_two_columns_per_level() {
    assert_eq!(row_indent(1), 0);
    assert_eq!(row_indent(2), 2);
    assert_eq!(row_indent(4), 6);
}
