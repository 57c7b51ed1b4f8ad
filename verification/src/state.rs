//! The navigation state over a loaded tree.
//!
//! A [`TreeState`] owns the tree items, the selected row, the window bounds
//! of the previous frame and the active search pattern.  Movement clamps the
//! selection into the visible rows and is a no-op on an empty tree; collapse
//! operations re-clamp the selection after the visible set shrinks; setting
//! an invalid search pattern is rejected and leaves every part of the state
//! as it was.

use vstd::prelude::*;

use crate::search::regex_valid;
use crate::search::PatternError;
use crate::tree::annotate;
use crate::tree::flat_forest;
use crate::tree::items_view;
use crate::tree::NodeView;
use crate::tree::path_view;
use crate::tree::pat_view;
use crate::tree::rows_view;
use crate::tree::set_all_forest;
use crate::tree::set_exp_forest;
use crate::tree::RowView;
use crate::tree::TreeItem;
use crate::tree::VisibleRow;
use crate::viewport::compute_window;
use crate::viewport::window_spec;

verus! {

/// Where the selection rests after the visible set changed: clamped into
/// the visible rows, at zero when none is left.
pub open spec fn clamped(pos: int, count: int) -> int {
    if count == 0 {
        0
    } else if pos < count {
        pos
    } else {
        count - 1
    }
}

/// The rendered heights of flattened rows: each row is as tall as its label
/// has lines.
pub open spec fn row_heights(rows: Seq<RowView>) -> Seq<usize> {
    rows.map_values(|r: RowView| r.lines.len() as usize)
}

/// The selection, window and search state over a loaded forest of tree
/// items.
#[derive(Debug)]
pub struct TreeState {
    /// The tree being navigated.
    pub items: Vec<TreeItem>,
    /// The selected row, as an index into the visible rows.
    pub position: usize,
    /// The first row of the window computed for the previous frame.
    pub start: usize,
    /// One past the last row of that window.
    pub end: usize,
    /// The active search pattern; `None` when no search is active.
    pub search: Option<String>,
}

impl TreeState {
    /// The views of the tree items.
    pub open spec fn nodes(self) -> Seq<NodeView> {
        items_view(self.items@)
    }

    /// The view of the active search pattern.
    pub open spec fn pat(self) -> Option<Seq<char>> {
        match self.search {
            Option::Some(p) => Option::Some(p@),
            Option::None => Option::None,
        }
    }

    /// The visible rows, in visual order, before search annotation.
    pub open spec fn skeleton(self) -> Seq<RowView> {
        flat_forest(self.nodes())
    }

    /// The number of visible rows.
    pub open spec fn count(self) -> int {
        self.skeleton().len() as int
    }

    /// The visible rows with their search flags.
    pub open spec fn rows(self) -> Seq<RowView> {
        annotate(self.skeleton(), self.pat())
    }

    /// Well-formedness: the selection lies within the visible rows, and on
    /// an empty tree it rests at zero.
    pub open spec fn inv(self) -> bool {
        &&& (self.count() == 0 ==> self.position == 0)
        &&& (self.count() > 0 ==> (self.position as int) < self.count())
    }

    /// How many rows one page movement steps over: one window's worth.
    pub open spec fn page_step(self) -> int {
        if self.end > self.start {
            self.end - self.start - 1
        } else {
            0
        }
    }

    /// Takes ownership of a forest of tree items; the selection starts on
    /// the first row, no search is active, and no window has been computed
    /// yet.
    pub fn new(items: Vec<TreeItem>) -> (state: TreeState)
        ensures
            state.items@ == items@,
            state.position == 0,
            state.start == 0,
            state.end == 0,
            state.search is None,
            state.inv(),
    {
        TreeState { items, position: 0, start: 0, end: 0, search: None }
    }

    /// The visible rows in visual order, each flagged if the active search
    /// pattern matches its label text.
    pub fn visible_rows(&self) -> (rows: Vec<VisibleRow>)
        ensures
            rows_view(rows@) == self.rows(),
    {
        match &self.search {
            Option::Some(p) => crate::tree::flatten(&self.items, Some(p)),
            Option::None => crate::tree::flatten(&self.items, None),
        }
    }

    /// The number of visible rows.
    fn count_rows(&self) -> (n: usize)
        ensures
            n as int == self.count(),
    {
        let rows = crate::tree::flatten(&self.items, None);
        proof {
            assert(rows_view(rows@).len() == rows@.len());
            assert(annotate(self.skeleton(), Option::None).len() == self.skeleton().len());
        }
        rows.len()
    }

    /// The path of the selected row, or `None` when the tree has no visible
    /// rows.
    pub fn position(&self) -> (p: Option<Vec<usize>>)
        requires
            self.inv(),
        ensures
            match p {
                Option::Some(path) => self.count() > 0 && path_view(path@)
                    == self.skeleton()[self.position as int].path,
                Option::None => self.count() == 0,
            },
    {
        let rows = self.visible_rows();
        proof {
            assert(rows_view(rows@).len() == rows@.len());
            assert(self.rows().len() == self.skeleton().len());
        }
        if rows.len() == 0 {
            None
        } else {
            let ghost i = self.position as int;
            proof {
                assert(rows_view(rows@)[i] == self.rows()[i]);
                assert(self.rows()[i].path == self.skeleton()[i].path);
            }
            Some(crate::tree::copy_path(&rows[self.position].path))
        }
    }

    /// Moves the selection one row up, stopping at the first row.
    pub fn move_up(&mut self)
        ensures
            final(self).items@ == old(self).items@,
            final(self).search == old(self).search,
            final(self).start == old(self).start,
            final(self).end == old(self).end,
            final(self).position as int == if old(self).position > 0 {
                old(self).position - 1
            } else {
                0int
            },
            old(self).inv() ==> final(self).inv(),
    {
        if self.position > 0 {
            self.position = self.position - 1;
        }
    }

    /// Moves the selection one row down, stopping at the last visible row;
    /// a no-op on an empty tree.
    pub fn move_down(&mut self)
        requires
            old(self).inv(),
        ensures
            final(self).items@ == old(self).items@,
            final(self).search == old(self).search,
            final(self).start == old(self).start,
            final(self).end == old(self).end,
            final(self).inv(),
            final(self).position as int == if old(self).count() == 0 {
                0int
            } else if old(self).position + 1 < old(self).count() {
                old(self).position + 1
            } else {
                old(self).count() - 1
            },
    {
        let n = self.count_rows();
        if n > 0 {
            if self.position + 1 < n {
                self.position = self.position + 1;
            } else {
                self.position = n - 1;
            }
        }
    }

    /// Moves the selection one window's worth of rows up, stopping at the
    /// first row.
    pub fn page_up(&mut self)
        ensures
            final(self).items@ == old(self).items@,
            final(self).search == old(self).search,
            final(self).start == old(self).start,
            final(self).end == old(self).end,
            final(self).position as int == if old(self).position >= old(self).page_step() {
                old(self).position - old(self).page_step()
            } else {
                0int
            },
            old(self).inv() ==> final(self).inv(),
    {
        let step: usize = if self.end > self.start {
            self.end - self.start - 1
        } else {
            0
        };
        if self.position >= step {
            self.position = self.position - step;
        } else {
            self.position = 0;
        }
    }

    /// Moves the selection one window's worth of rows down, stopping at the
    /// last visible row; a no-op on an empty tree.
    pub fn page_down(&mut self)
        requires
            old(self).inv(),
        ensures
            final(self).items@ == old(self).items@,
            final(self).search == old(self).search,
            final(self).start == old(self).start,
            final(self).end == old(self).end,
            final(self).inv(),
            final(self).position as int == if old(self).count() == 0 {
                0int
            } else if old(self).position + old(self).page_step() < old(self).count() {
                old(self).position + old(self).page_step()
            } else {
                old(self).count() - 1
            },
    {
        let n = self.count_rows();
        if n > 0 {
            let step: usize = if self.end > self.start {
                self.end - self.start - 1
            } else {
                0
            };
            if step < n - self.position {
                self.position = self.position + step;
            } else {
                self.position = n - 1;
            }
        }
    }

    /// Recomputes the window bounds for a display of height `max_height`,
    /// keeping the previous anchor whenever the selection still fits under
    /// it.
    pub fn update_bounds(&mut self, max_height: usize)
        requires
            old(self).inv(),
        ensures
            final(self).items@ == old(self).items@,
            final(self).search == old(self).search,
            final(self).position == old(self).position,
            final(self).inv(),
            window_spec(
                row_heights(old(self).skeleton()),
                old(self).position as int,
                old(self).start as int,
                max_height as int,
                final(self).start as int,
                final(self).end as int,
            ),
    {
        let rows = self.visible_rows();
        let ghost skel = self.skeleton();
        let mut heights: Vec<usize> = Vec::new();
        let mut i: usize = 0;
        while i < rows.len()
            invariant
                i <= rows.len(),
                rows_view(rows@) == annotate(skel, self.pat()),
                heights@.len() == i,
                forall|j: int| 0 <= j < i ==> heights@[j] == rows@[j].contents.len(),
            decreases rows.len() - i,
        {
            heights.push(rows[i].contents.len());
            i += 1;
        }
        proof {
            assert(rows_view(rows@).len() == rows@.len());
            assert(annotate(skel, self.pat()).len() == skel.len());
            assert forall|j: int| 0 <= j < rows@.len() implies heights@[j] == row_heights(
                skel,
            )[j] by {
                assert(rows_view(rows@)[j] == annotate(skel, self.pat())[j]);
                assert(rows@[j]@.lines == skel[j].lines);
                assert(rows@[j]@.lines.len() == rows@[j].contents@.len());
            };
            assert(heights@ =~= row_heights(skel));
        }
        let w = compute_window(&heights, self.position, self.start, max_height);
        self.start = w.0;
        self.end = w.1;
    }

    /// Replaces the active search pattern.  `None` clears the search; a
    /// pattern that the regular-expression compiler rejects is refused, and
    /// the whole state, the previous pattern included, stays as it was.
    pub fn search(&mut self, pattern: Option<&String>) -> (r: Result<(), PatternError>)
        ensures
            final(self).items@ == old(self).items@,
            final(self).position == old(self).position,
            final(self).start == old(self).start,
            final(self).end == old(self).end,
            old(self).inv() ==> final(self).inv(),
            match pat_view(pattern) {
                Option::None => r is Ok && final(self).search is None,
                Option::Some(p) => {
                    &&& (r is Ok <==> regex_valid(p))
                    &&& (r is Ok ==> final(self).pat() == Option::Some(p))
                    &&& (r is Err ==> final(self).search == old(self).search)
                },
            },
    {
        match pattern {
            Option::None => {
                self.search = None;
                Ok(())
            },
            Option::Some(p) => {
                if crate::search::regex_compile_ok(p.as_str()) {
                    self.search = Some(p.clone());
                    Ok(())
                } else {
                    Err(PatternError)
                }
            },
        }
    }

    /// Clamps the selection into the visible rows; called after a mutation
    /// that can shrink the visible set.
    fn clamp_position(&mut self)
        ensures
            final(self).items@ == old(self).items@,
            final(self).search == old(self).search,
            final(self).start == old(self).start,
            final(self).end == old(self).end,
            final(self).position as int == clamped(old(self).position as int, old(self).count()),
            final(self).inv(),
    {
        let n = self.count_rows();
        if n == 0 {
            self.position = 0;
        } else if self.position >= n {
            self.position = n - 1;
        }
    }

    /// Sets the expand flag of the node at `path` to `value`, then clamps
    /// the selection into the remaining visible rows; a no-op on a path that
    /// leads nowhere.
    pub fn set_expanded(&mut self, path: &Vec<usize>, value: bool)
        ensures
            final(self).search == old(self).search,
            final(self).start == old(self).start,
            final(self).end == old(self).end,
            final(self).nodes() == set_exp_forest(old(self).nodes(), path_view(path@), value),
            final(self).position as int == clamped(old(self).position as int, final(self).count()),
            final(self).inv(),
    {
        crate::tree::set_exp_forest_exec(&mut self.items, path, value);
        self.clamp_position();
    }

    /// Expands the selected node; a no-op on an empty tree.  Expanding a
    /// leaf sets its flag but shows nothing new.
    pub fn expand(&mut self)
        requires
            old(self).inv(),
        ensures
            final(self).search == old(self).search,
            final(self).start == old(self).start,
            final(self).end == old(self).end,
            final(self).inv(),
            old(self).count() == 0 ==> final(self).nodes() == old(self).nodes()
                && final(self).position == old(self).position,
            old(self).count() > 0 ==> {
                &&& final(self).nodes() == set_exp_forest(
                    old(self).nodes(),
                    old(self).skeleton()[old(self).position as int].path,
                    true,
                )
                &&& final(self).position as int == clamped(
                    old(self).position as int,
                    final(self).count(),
                )
            },
    {
        match self.position() {
            Option::Some(path) => self.set_expanded(&path, true),
            Option::None => (),
        }
    }

    /// Collapses the selected node, then clamps the selection into the rows
    /// that remain visible; a no-op on an empty tree.
    pub fn collapse(&mut self)
        requires
            old(self).inv(),
        ensures
            final(self).search == old(self).search,
            final(self).start == old(self).start,
            final(self).end == old(self).end,
            final(self).inv(),
            old(self).count() == 0 ==> final(self).nodes() == old(self).nodes()
                && final(self).position == old(self).position,
            old(self).count() > 0 ==> {
                &&& final(self).nodes() == set_exp_forest(
                    old(self).nodes(),
                    old(self).skeleton()[old(self).position as int].path,
                    false,
                )
                &&& final(self).position as int == clamped(
                    old(self).position as int,
                    final(self).count(),
                )
            },
    {
        match self.position() {
            Option::Some(path) => self.set_expanded(&path, false),
            Option::None => (),
        }
    }

    /// Expands every node of the tree.
    pub fn expand_all(&mut self)
        ensures
            final(self).search == old(self).search,
            final(self).start == old(self).start,
            final(self).end == old(self).end,
            final(self).nodes() == set_all_forest(old(self).nodes(), true),
            final(self).position as int == clamped(old(self).position as int, final(self).count()),
            final(self).inv(),
    {
        crate::tree::set_all_forest_exec(&mut self.items, true);
        self.clamp_position();
    }

    /// Collapses every node of the tree, then clamps the selection into the
    /// rows that remain visible: the top-level rows.
    pub fn collapse_all(&mut self)
        ensures
            final(self).search == old(self).search,
            final(self).start == old(self).start,
            final(self).end == old(self).end,
            final(self).nodes() == set_all_forest(old(self).nodes(), false),
            final(self).position as int == clamped(old(self).position as int, final(self).count()),
            final(self).inv(),
    {
        crate::tree::set_all_forest_exec(&mut self.items, false);
        self.clamp_position();
    }
}

} // verus!
