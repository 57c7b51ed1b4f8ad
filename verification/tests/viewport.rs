use h5tui::compute_window;

#[test]
fn empty_sequence_gives_empty_window() {
    assert_eq!(compute_window(&vec![], 0, 0, 10), (0, 0));
}

#[test]
fn whole_sequence_fits() {
    let heights = vec![1, 1, 1];
    assert_eq!(compute_window(&heights, 1, 0, 10), (0, 3));
}

#[test]
fn uniform_rows_fill_the_display_exactly() {
    let heights = vec![1; 10];
    assert_eq!(compute_window(&heights, 0, 0, 4), (0, 4));
}

#[test]
fn scrolling_up_anchors_at_the_selection() {
    let heights = vec![1; 10];
    assert_eq!(compute_window(&heights, 2, 5, 4), (2, 6));
}

#[test]
fn scrolling_down_puts_selection_on_the_last_line() {
    let heights = vec![1; 10];
    assert_eq!(compute_window(&heights, 7, 0, 4), (4, 8));
}

#[test]
fn anchor_is_kept_while_selection_fits() {
    // Scroll minimality: the window start does not move as long as the
    // selection stays reachable from it.
    let heights = vec![1; 10];
    assert_eq!(compute_window(&heights, 5, 3, 4), (3, 7));
    assert_eq!(compute_window(&heights, 6, 3, 4), (3, 7));
    assert_eq!(compute_window(&heights, 3, 3, 4), (3, 7));
}

#[test]
fn variable_heights_never_overflow_the_display() {
    // Rows of heights 5, 3, 3: a display of height 10 starting at row 0
    // can show only rows 0 and 1 without truncation.
    let heights = vec![5, 3, 3];
    assert_eq!(compute_window(&heights, 0, 0, 10), (0, 2));
    // Ending at row 2 it can reach back up to row 1 (3 + 3 <= 10 but
    // 5 + 3 + 3 > 10).
    assert_eq!(compute_window(&heights, 2, 0, 10), (1, 3));
}

#[test]
fn oversized_row_is_shown_alone() {
    let heights = vec![7, 2];
    assert_eq!(compute_window(&heights, 0, 0, 3), (0, 1));
    let heights = vec![2, 7];
    assert_eq!(compute_window(&heights, 1, 0, 3), (1, 2));
}
