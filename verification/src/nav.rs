//! The input-mode state machine.
//!
//! A session is either in `Normal` mode, where keys move the selection,
//! page, expand and collapse, or in search-entry mode, where keys edit the
//! search buffer one character at a time.  Every transition is handled by
//! [`handle_key`]: the event loop around it only reads keys, hands them
//! here, and draws.  An edit that would make the buffer an invalid pattern
//! is rolled back: buffer and active search stay as they were.

use vstd::prelude::*;

use crate::search::regex_valid;
use crate::state::clamped;
use crate::state::TreeState;
use crate::tree::set_all_forest;
use crate::tree::set_exp_forest;

verus! {

/// The input mode: normal navigation, or search entry with the buffer typed
/// so far.
#[derive(Clone, Debug)]
pub enum Mode {
    Normal,
    Search { search: String },
}

/// The search buffer a mode shows: `None` in normal mode.
pub open spec fn mode_view(m: Mode) -> Option<Seq<char>> {
    match m {
        Mode::Normal => Option::None,
        Mode::Search { search } => Option::Some(search@),
    }
}

/// One decoded key press, as the state machine distinguishes them.
#[derive(Clone, Copy, Debug, PartialEq, Eq, Structural)]
pub enum Key {
    Escape,
    Backspace,
    Up,
    Down,
    PageUp,
    PageDown,
    Left,
    Right,
    ShiftLeft,
    ShiftRight,
    /// A character typed without modifiers.
    Char(char),
    /// A character typed with shift held.
    ShiftChar(char),
    /// Any key the state machine ignores.
    Other,
}

/// The parts of the state no key ever touches together: unchanged tree,
/// window bounds and search.
pub open spec fn same_surroundings(s0: TreeState, s1: TreeState) -> bool {
    &&& s1.items@ == s0.items@
    &&& s1.start == s0.start
    &&& s1.end == s0.end
    &&& s1.search == s0.search
}

/// Nothing about the state changed.
pub open spec fn state_still(s0: TreeState, s1: TreeState) -> bool {
    same_surroundings(s0, s1) && s1.position == s0.position
}

/// The selection moved one row up, stopping at the first row.
pub open spec fn moved_up(s0: TreeState, s1: TreeState) -> bool {
    &&& same_surroundings(s0, s1)
    &&& s1.position as int == if s0.position > 0 {
        s0.position - 1
    } else {
        0int
    }
}

/// The selection moved one row down, stopping at the last visible row.
pub open spec fn moved_down(s0: TreeState, s1: TreeState) -> bool {
    &&& same_surroundings(s0, s1)
    &&& s1.position as int == if s0.count() == 0 {
        0int
    } else if s0.position + 1 < s0.count() {
        s0.position + 1
    } else {
        s0.count() - 1
    }
}

/// The selection moved one window's worth of rows up.
pub open spec fn paged_up(s0: TreeState, s1: TreeState) -> bool {
    &&& same_surroundings(s0, s1)
    &&& s1.position as int == if s0.position >= s0.page_step() {
        s0.position - s0.page_step()
    } else {
        0int
    }
}

/// The selection moved one window's worth of rows down.
pub open spec fn paged_down(s0: TreeState, s1: TreeState) -> bool {
    &&& same_surroundings(s0, s1)
    &&& s1.position as int == if s0.count() == 0 {
        0int
    } else if s0.position + s0.page_step() < s0.count() {
        s0.position + s0.page_step()
    } else {
        s0.count() - 1
    }
}

/// The selected node's expand flag was set to `value` and the selection
/// clamped into the rows that remain visible.
pub open spec fn selected_set(s0: TreeState, s1: TreeState, value: bool) -> bool {
    &&& s1.search == s0.search
    &&& s1.start == s0.start
    &&& s1.end == s0.end
    &&& (s0.count() == 0 ==> s1.nodes() == s0.nodes() && s1.position == s0.position)
    &&& (s0.count() > 0 ==> s1.nodes() == set_exp_forest(
        s0.nodes(),
        s0.skeleton()[s0.position as int].path,
        value,
    ) && s1.position as int == clamped(s0.position as int, s1.count()))
}

/// Every expand flag was set to `value` and the selection clamped.
pub open spec fn all_set(s0: TreeState, s1: TreeState, value: bool) -> bool {
    &&& s1.search == s0.search
    &&& s1.start == s0.start
    &&& s1.end == s0.end
    &&& s1.nodes() == set_all_forest(s0.nodes(), value)
    &&& s1.position as int == clamped(s0.position as int, s1.count())
}

/// The search was cleared.
pub open spec fn search_cleared(s0: TreeState, s1: TreeState) -> bool {
    &&& s1.items@ == s0.items@
    &&& s1.position == s0.position
    &&& s1.start == s0.start
    &&& s1.end == s0.end
    &&& s1.search is None
}

/// A search with the empty pattern was activated.  The empty pattern
/// compiles and matches every row; should the regular-expression compiler
/// ever reject it, the previous search would simply be kept.
pub open spec fn search_entered(s0: TreeState, s1: TreeState) -> bool {
    &&& s1.items@ == s0.items@
    &&& s1.position == s0.position
    &&& s1.start == s0.start
    &&& s1.end == s0.end
    &&& if regex_valid(Seq::<char>::empty()) {
        s1.pat() == Option::Some(Seq::<char>::empty())
    } else {
        s1.search == s0.search
    }
}

/// The search buffer was replaced by `cand` and the pattern re-compiled:
/// on success buffer and active pattern are `cand`; on failure both stay
/// as they were (`b` is the old buffer).
pub open spec fn search_edited(
    b: Seq<char>,
    cand: Seq<char>,
    s0: TreeState,
    s1: TreeState,
    m1: Mode,
) -> bool {
    if regex_valid(cand) {
        &&& mode_view(m1) == Option::Some(cand)
        &&& s1.pat() == Option::Some(cand)
        &&& s1.items@ == s0.items@
        &&& s1.position == s0.position
        &&& s1.start == s0.start
        &&& s1.end == s0.end
    } else {
        &&& mode_view(m1) == Option::Some(b)
        &&& state_still(s0, s1)
    }
}

/// The whole transition relation of the state machine: what one key press
/// does to the mode, the navigation state and the session.
pub open spec fn step_spec(
    m0: Mode,
    s0: TreeState,
    key: Key,
    m1: Mode,
    s1: TreeState,
    quit: bool,
) -> bool {
    match m0 {
        Mode::Normal => match key {
            Key::Escape => mode_view(m1) is None && state_still(s0, s1) && quit,
            Key::Up => mode_view(m1) is None && moved_up(s0, s1) && !quit,
            Key::Down => mode_view(m1) is None && moved_down(s0, s1) && !quit,
            Key::PageUp => mode_view(m1) is None && paged_up(s0, s1) && !quit,
            Key::PageDown => mode_view(m1) is None && paged_down(s0, s1) && !quit,
            Key::Left => mode_view(m1) is None && selected_set(s0, s1, false) && !quit,
            Key::Right => mode_view(m1) is None && selected_set(s0, s1, true) && !quit,
            Key::ShiftLeft => mode_view(m1) is None && all_set(s0, s1, false) && !quit,
            Key::ShiftRight => mode_view(m1) is None && all_set(s0, s1, true) && !quit,
            Key::Char(c) => if c == 'q' {
                mode_view(m1) is None && state_still(s0, s1) && quit
            } else if c == 'k' {
                mode_view(m1) is None && moved_up(s0, s1) && !quit
            } else if c == 'j' {
                mode_view(m1) is None && moved_down(s0, s1) && !quit
            } else if c == 'h' {
                mode_view(m1) is None && selected_set(s0, s1, false) && !quit
            } else if c == 'l' {
                mode_view(m1) is None && selected_set(s0, s1, true) && !quit
            } else if c == '/' {
                mode_view(m1) == Option::Some(Seq::<char>::empty()) && search_entered(s0, s1)
                    && !quit
            } else {
                mode_view(m1) is None && state_still(s0, s1) && !quit
            },
            Key::ShiftChar(c) => if c == 'H' {
                mode_view(m1) is None && all_set(s0, s1, false) && !quit
            } else if c == 'L' {
                mode_view(m1) is None && all_set(s0, s1, true) && !quit
            } else {
                mode_view(m1) is None && state_still(s0, s1) && !quit
            },
            _ => mode_view(m1) is None && state_still(s0, s1) && !quit,
        },
        Mode::Search { search } => match key {
            Key::Escape => mode_view(m1) is None && search_cleared(s0, s1) && !quit,
            Key::Char(c) => search_edited(search@, search@.push(c), s0, s1, m1) && !quit,
            Key::Backspace => search_edited(
                search@,
                if search@.len() > 0 {
                    search@.drop_last()
                } else {
                    search@
                },
                s0,
                s1,
                m1,
            ) && !quit,
            _ => mode_view(m1) == Option::Some(search@) && state_still(s0, s1) && !quit,
        },
    }
}

/// Relies on std's `String::push`: appends the given character to the end
/// of the string.
#[verifier::external_body]
fn push_char(s: &mut String, c: char)
    ensures
        final(s)@ == old(s)@.push(c),
{
    s.push(c);
}

/// Relies on std's `String::pop`: removes the last character from the
/// string and returns it, or returns `None` when the string is empty.
#[verifier::external_body]
fn pop_char(s: &mut String) -> (c: Option<char>)
    ensures
        old(s)@.len() == 0 ==> c is None && final(s)@ == old(s)@,
        old(s)@.len() > 0 ==> c == Option::Some(old(s)@.last()) && final(s)@ == old(s)@.drop_last(),
{
    s.pop()
}

/// Handles one key press: mutates the mode and the navigation state as
/// [`step_spec`] describes, and returns whether the session should end.
pub fn handle_key(mode: &mut Mode, state: &mut TreeState, key: Key) -> (quit: bool)
    requires
        old(state).inv(),
    ensures
        final(state).inv(),
        step_spec(*old(mode), *old(state), key, *final(mode), *final(state), quit),
{
    let is_search: bool = match &*mode {
        Mode::Search { .. } => true,
        Mode::Normal => false,
    };
    if !is_search {
        match key {
            Key::Escape => true,
            Key::Up => {
                state.move_up();
                false
            },
            Key::Down => {
                state.move_down();
                false
            },
            Key::PageUp => {
                state.page_up();
                false
            },
            Key::PageDown => {
                state.page_down();
                false
            },
            Key::Left => {
                state.collapse();
                false
            },
            Key::Right => {
                state.expand();
                false
            },
            Key::ShiftLeft => {
                state.collapse_all();
                false
            },
            Key::ShiftRight => {
                state.expand_all();
                false
            },
            Key::Char(c) => {
                if c == 'q' {
                    true
                } else if c == 'k' {
                    state.move_up();
                    false
                } else if c == 'j' {
                    state.move_down();
                    false
                } else if c == 'h' {
                    state.collapse();
                    false
                } else if c == 'l' {
                    state.expand();
                    false
                } else if c == '/' {
                    let empty = String::new();
                    let _ = state.search(Some(&empty));
                    *mode = Mode::Search { search: String::new() };
                    false
                } else {
                    false
                }
            },
            Key::ShiftChar(c) => {
                if c == 'H' {
                    state.collapse_all();
                    false
                } else if c == 'L' {
                    state.expand_all();
                    false
                } else {
                    false
                }
            },
            _ => false,
        }
    } else {
        match key {
            Key::Escape => {
                let _ = state.search(None);
                *mode = Mode::Normal;
                false
            },
            Key::Char(c) => {
                let mut cand = match &*mode {
                    Mode::Search { search } => search.clone(),
                    Mode::Normal => String::new(),
                };
                push_char(&mut cand, c);
                match state.search(Some(&cand)) {
                    Ok(_) => {
                        *mode = Mode::Search { search: cand };
                    },
                    Err(_) => {},
                }
                false
            },
            Key::Backspace => {
                let mut cand = match &*mode {
                    Mode::Search { search } => search.clone(),
                    Mode::Normal => String::new(),
                };
                let _ = pop_char(&mut cand);
                match state.search(Some(&cand)) {
                    Ok(_) => {
                        *mode = Mode::Search { search: cand };
                    },
                    Err(_) => {},
                }
                false
            },
            _ => false,
        }
    }
}

/// How one row is painted: the single selected row is highlighted, unless a
/// search is active, in which case only matching rows are highlighted —
/// selection and search-match are mutually exclusive visual states.
#[derive(Clone, Copy, Debug, PartialEq, Eq, Structural)]
pub enum RowStyle {
    Selected,
    SearchMatch,
    Plain,
}

/// Picks the style of one row from its place in the current state.
pub fn row_style(is_selected: bool, search_active: bool, is_match: bool) -> (s: RowStyle)
    ensures
        s == if is_selected && !search_active {
            RowStyle::Selected
        } else if is_match {
            RowStyle::SearchMatch
        } else {
            RowStyle::Plain
        },
{
    if is_selected && !search_active {
        RowStyle::Selected
    } else if is_match {
        RowStyle::SearchMatch
    } else {
        RowStyle::Plain
    }
}

/// How far a row is indented: two columns for each level below the root.
pub fn row_indent(depth: usize) -> (n: usize)
    requires
        1 <= depth,
        2 * (depth - 1) <= usize::MAX,
    ensures
        n == 2 * (depth - 1),
{
    2 * (depth - 1)
}

} // verus!
