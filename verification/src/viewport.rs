//! The viewport controller.
//!
//! Given the heights of the visible rows, the selected row, the previous
//! window start and the display height, [`compute_window`] picks the
//! contiguous slice of rows to draw.  The window keeps its previous anchor
//! whenever the selection still fits below it (so the view scrolls as little
//! as possible), scrolls up just enough when the selection moved above it,
//! and scrolls down just enough when the selection no longer fits.  Rows may
//! have different heights; the window never holds more rows than fit the
//! display height, except that the selected row alone is always shown, even
//! when it is taller than the display.

use vstd::prelude::*;

verus! {

/// The summed heights of the rows `h[a..b)`.
pub open spec fn sum_heights(h: Seq<usize>, a: int, b: int) -> int
    decreases b - a,
{
    if a < b {
        h[a] + sum_heights(h, a + 1, b)
    } else {
        0
    }
}

pub proof fn lemma_sum_nonneg(h: Seq<usize>, a: int, b: int)
    ensures
        sum_heights(h, a, b) >= 0,
    decreases b - a,
{
    if a < b {
        lemma_sum_nonneg(h, a + 1, b);
    }
}

pub proof fn lemma_sum_split(h: Seq<usize>, a: int, m: int, b: int)
    requires
        a <= m <= b,
    ensures
        sum_heights(h, a, b) == sum_heights(h, a, m) + sum_heights(h, m, b),
    decreases m - a,
{
    if a < m {
        lemma_sum_split(h, a + 1, m, b);
    }
}

/// Appending row `b` to the range `[a, b)` adds its height to the sum.
pub proof fn lemma_sum_extend(h: Seq<usize>, a: int, b: int)
    requires
        a <= b,
    ensures
        sum_heights(h, a, b + 1) == sum_heights(h, a, b) + h[b],
{
    lemma_sum_split(h, a, b, b + 1);
    assert(sum_heights(h, b + 1, b + 1) == 0);
    assert(sum_heights(h, b, b + 1) == h[b]);
}

/// A longer range of rows is at least as tall.
pub proof fn lemma_sum_monotonic(h: Seq<usize>, a: int, b1: int, b2: int)
    requires
        a <= b1 <= b2,
    ensures
        sum_heights(h, a, b1) <= sum_heights(h, a, b2),
{
    lemma_sum_split(h, a, b1, b2);
    lemma_sum_nonneg(h, b1, b2);
}

/// Rows `[s, sel]` fit a display of height `max` together.
pub open spec fn fits(h: Seq<usize>, s: int, sel: int, max: int) -> bool {
    sum_heights(h, s, sel + 1) <= max
}

/// The window `[start, end)` reaches as far down as it can: either to the end
/// of the row sequence, or one more row would exceed the display height.
pub open spec fn end_maximal(h: Seq<usize>, start: int, end: int, max: int) -> bool {
    end == h.len() || sum_heights(h, start, end + 1) > max
}

/// The window `[start, end)` reaches as far up as it can: either to the first
/// row, or one more row above would exceed the display height.
pub open spec fn start_minimal(h: Seq<usize>, start: int, end: int, max: int) -> bool {
    start == 0 || sum_heights(h, start - 1, end) > max
}

/// What [`compute_window`] guarantees of the window `[start, end)` it picks
/// for row heights `h`, selected row `selection`, previous anchor
/// `previous_start` and display height `max`.
pub open spec fn window_spec(
    h: Seq<usize>,
    selection: int,
    previous_start: int,
    max: int,
    start: int,
    end: int,
) -> bool {
    if h.len() == 0 {
        start == 0 && end == 0
    } else {
        &&& 0 <= start <= selection < end <= h.len()
        &&& (sum_heights(h, start, end) <= max || end == start + 1)
        &&& (selection < previous_start ==> start == selection && end_maximal(h, start, end, max))
        &&& (previous_start <= selection && fits(h, previous_start, selection, max) ==> start
            == previous_start && end_maximal(h, start, end, max))
        &&& (previous_start <= selection && !fits(h, previous_start, selection, max) ==> end
            == selection + 1 && start_minimal(h, start, end, max))
    }
}

/// The viewport invariant: whatever window the controller picks for a
/// non-empty row sequence, a display height of at least one, and an
/// in-range selection, the selection lies inside it, and the summed row
/// heights of the window do not exceed the display height unless the
/// window is a single row that alone exceeds it.
pub proof fn lemma_window_invariant(
    h: Seq<usize>,
    selection: int,
    previous_start: int,
    max: int,
    start: int,
    end: int,
)
    requires
        h.len() > 0,
        0 <= selection < h.len(),
        window_spec(h, selection, previous_start, max, start, end),
    ensures
        start <= selection < end <= h.len(),
        sum_heights(h, start, end) <= max || (end == start + 1 && h[start] > max),
{
    if !(sum_heights(h, start, end) <= max) {
        assert(sum_heights(h, start + 1, start + 1) == 0);
        assert(sum_heights(h, start, start + 1) == h[start]);
    }
}

/// Scroll minimality: as long as the selection still fits in a window
/// anchored at the previous start, the window the controller picks keeps
/// exactly that start.
pub proof fn lemma_scroll_minimal(
    h: Seq<usize>,
    selection: int,
    previous_start: int,
    max: int,
    start: int,
    end: int,
)
    requires
        h.len() > 0,
        0 <= selection < h.len(),
        previous_start <= selection,
        fits(h, previous_start, selection, max),
        window_spec(h, selection, previous_start, max, start, end),
    ensures
        start == previous_start,
{
}

/// A longer range of rows upward is at least as tall.
pub proof fn lemma_sum_monotonic_left(h: Seq<usize>, a1: int, a2: int, b: int)
    requires
        a1 <= a2 <= b,
    ensures
        sum_heights(h, a2, b) <= sum_heights(h, a1, b),
{
    lemma_sum_split(h, a1, a2, b);
    lemma_sum_nonneg(h, a1, a2);
}

/// The window specification pins the window down: two windows that both
/// satisfy it, for the same rows, selection, anchor and display height,
/// are the same window.
pub proof fn lemma_window_unique(
    h: Seq<usize>,
    selection: int,
    previous_start: int,
    max: int,
    s1: int,
    e1: int,
    s2: int,
    e2: int,
)
    requires
        0 <= selection,
        h.len() > 0 ==> selection < h.len(),
        window_spec(h, selection, previous_start, max, s1, e1),
        window_spec(h, selection, previous_start, max, s2, e2),
    ensures
        s1 == s2,
        e1 == e2,
{
    if h.len() == 0 {
        return ;
    }
    if previous_start <= selection && !fits(h, previous_start, selection, max) {
        // Both windows end at the selection; their starts agree.
        assert(e1 == e2);
        if s1 < s2 {
            assert(sum_heights(h, s2 - 1, e2) > max);
            lemma_sum_monotonic_left(h, s1, s2 - 1, e1);
            assert(s1 + 1 == e1);
        } else if s2 < s1 {
            assert(sum_heights(h, s1 - 1, e1) > max);
            lemma_sum_monotonic_left(h, s2, s1 - 1, e2);
            assert(s2 + 1 == e2);
        }
    } else {
        // Both windows share their start; their ends agree.
        assert(s1 == s2);
        if e1 < e2 {
            assert(e1 < h.len());
            assert(sum_heights(h, s1, e1 + 1) > max);
            lemma_sum_monotonic(h, s2, e1 + 1, e2);
            assert(e2 == s2 + 1);
        } else if e2 < e1 {
            assert(e2 < h.len());
            assert(sum_heights(h, s2, e2 + 1) > max);
            lemma_sum_monotonic(h, s1, e2 + 1, e1);
            assert(e1 == s1 + 1);
        }
    }
}

/// Whether rows `[s, sel]` fit a display of height `max` together.
fn fits_exec(heights: &Vec<usize>, s: usize, sel: usize, max: usize) -> (r: bool)
    requires
        s <= sel < heights@.len(),
    ensures
        r == fits(heights@, s as int, sel as int, max as int),
{
    let mut i = s;
    let mut acc: usize = 0;
    while i <= sel
        invariant
            s <= i <= sel + 1,
            sel < heights.len(),
            acc == sum_heights(heights@, s as int, i as int),
            acc <= max,
        decreases sel + 1 - i,
    {
        proof {
            lemma_sum_extend(heights@, s as int, i as int);
        }
        if heights[i] > max - acc {
            proof {
                lemma_sum_monotonic(heights@, s as int, i + 1, sel + 1);
            }
            return false;
        }
        acc = acc + heights[i];
        i += 1;
    }
    true
}

/// The lowest end a window anchored at `start` can reach without exceeding
/// the display height; at least the row `start` itself, even when that row
/// alone is taller than the display.
fn grow_end(heights: &Vec<usize>, start: usize, max: usize) -> (end: usize)
    requires
        start < heights@.len(),
    ensures
        start < end <= heights@.len(),
        sum_heights(heights@, start as int, end as int) <= max || end == start + 1,
        end_maximal(heights@, start as int, end as int, max as int),
{
    let mut e = start;
    let mut acc: usize = 0;
    while e < heights.len() && heights[e] <= max - acc
        invariant
            start <= e <= heights@.len(),
            acc == sum_heights(heights@, start as int, e as int),
            acc <= max,
        decreases heights@.len() - e,
    {
        proof {
            lemma_sum_extend(heights@, start as int, e as int);
        }
        acc = acc + heights[e];
        e += 1;
    }
    proof {
        if e < heights@.len() {
            lemma_sum_extend(heights@, start as int, e as int);
        }
    }
    if e == start {
        // Not even the anchor row fits; show it alone, clipped.
        proof {
            if start + 1 < heights@.len() {
                lemma_sum_extend(heights@, start as int, start + 1);
                lemma_sum_nonneg(heights@, start as int, start + 1);
                lemma_sum_extend(heights@, start as int, start as int);
            }
        }
        start + 1
    } else {
        e
    }
}

/// The highest start a window ending at `end` can reach without exceeding
/// the display height; at most the row `end - 1` itself, even when that row
/// alone is taller than the display.
fn shrink_start(heights: &Vec<usize>, end: usize, max: usize) -> (start: usize)
    requires
        0 < end <= heights@.len(),
    ensures
        start < end,
        sum_heights(heights@, start as int, end as int) <= max || start + 1 == end,
        start_minimal(heights@, start as int, end as int, max as int),
{
    let mut s = end;
    let mut acc: usize = 0;
    while s > 0 && heights[s - 1] <= max - acc
        invariant
            0 <= s <= end,
            end <= heights@.len(),
            acc == sum_heights(heights@, s as int, end as int),
            acc <= max,
        decreases s,
    {
        proof {
            lemma_sum_split(heights@, s - 1, s as int, end as int);
            assert(sum_heights(heights@, s - 1, s as int) == heights@[s - 1] + sum_heights(
                heights@,
                s as int,
                s as int,
            ));
        }
        acc = acc + heights[s - 1];
        s -= 1;
    }
    proof {
        if s > 0 {
            lemma_sum_split(heights@, s - 1, s as int, end as int);
            assert(sum_heights(heights@, s - 1, s as int) == heights@[s - 1] + sum_heights(
                heights@,
                s as int,
                s as int,
            ));
        }
    }
    if s == end {
        // Not even the bottom row fits; show it alone, clipped.
        proof {
            if end >= 2 {
                lemma_sum_split(heights@, end - 2, end - 1, end as int);
                lemma_sum_nonneg(heights@, end - 2, end - 1);
                assert(sum_heights(heights@, end - 1, end as int) == heights@[end - 1]
                    + sum_heights(heights@, end as int, end as int));
            }
        }
        end - 1
    } else {
        s
    }
}

/// Picks the window of rows to draw.
///
/// `heights` are the rendered heights of the visible rows in visual order,
/// `selection` the selected row (must be in range when any row exists),
/// `previous_start` the window anchor of the previous frame, and
/// `display_height` the height of the pane, in the same units as `heights`.
///
/// The result `(start, end)` frames the rows `[start, end)`:
/// - the selection always lies inside the window;
/// - the framed rows together never exceed the display height, unless the
///   window holds a single row that alone is taller than the display;
/// - scrolling is minimal: the anchor is kept whenever the selection still
///   fits below `previous_start`; when the selection moved above the anchor
///   the window starts exactly at the selection; when it stopped fitting the
///   window ends exactly at the selection, which sits at its bottom.
pub fn compute_window(
    heights: &Vec<usize>,
    selection: usize,
    previous_start: usize,
    display_height: usize,
) -> (w: (usize, usize))
    requires
        heights@.len() > 0 ==> (selection as int) < heights@.len(),
    ensures
        window_spec(
            heights@,
            selection as int,
            previous_start as int,
            display_height as int,
            w.0 as int,
            w.1 as int,
        ),
{
    if heights.len() == 0 {
        return (0, 0);
    }
    if selection < previous_start {
        // The selection moved above the window: anchor the window at it.
        let start = selection;
        let end = grow_end(heights, start, display_height);
        (start, end)
    } else if fits_exec(heights, previous_start, selection, display_height) {
        // The selection still fits below the previous anchor: keep it.
        let start = previous_start;
        let end = grow_end(heights, start, display_height);
        proof {
            if end <= selection {
                lemma_sum_monotonic(heights@, start as int, end + 1, selection + 1);
            }
        }
        (start, end)
    } else {
        // The selection fell off the bottom: put it on the last line.
        let end = selection + 1;
        let start = shrink_start(heights, end, display_height);
        (start, end)
    }
}

} // verus!
