//! The node model and the flattener.
//!
//! A [`TreeItem`] is one entry of the hierarchy: a label of one or more
//! styled text lines, an ordered list of children and an expand flag.
//! Flattening turns a forest of such items, under the current expand state,
//! into the ordered sequence of visible rows: a depth-first pre-order walk in
//! which a collapsed item still appears but its subtree is omitted.  An
//! active search pattern marks each visible row whose label text it matches;
//! it never removes a row.

use vstd::prelude::*;

use crate::search::regex_match;
use crate::search::regex_text_match;
use crate::search::regex_valid;

verus! {

/// The display color class of a row: containers and leaves are drawn in
/// different colors.
#[derive(Clone, Copy, Debug, PartialEq, Eq, Structural)]
pub enum RowColor {
    Group,
    Dataset,
}

/// One entry of the hierarchy shown in the contents pane.
#[derive(Debug)]
pub struct TreeItem {
    /// The lines of the label; the row's rendered height is their number.
    pub contents: Vec<String>,
    /// The color class the row is drawn in.
    pub color: RowColor,
    /// The subtree below this entry, in declaration order.
    pub children: Vec<TreeItem>,
    /// Whether the subtree is currently shown.
    pub expanded: bool,
}

/// The mathematical value of a [`TreeItem`]: the same shape over `Seq`.
pub struct NodeView {
    pub lines: Seq<Seq<char>>,
    pub color: RowColor,
    pub expanded: bool,
    pub children: Seq<NodeView>,
}

/// The mathematical value of one flattened row.
pub struct RowView {
    /// Root-relative child indices leading to the node this row shows.
    pub path: Seq<int>,
    /// The label lines of that node.
    pub lines: Seq<Seq<char>>,
    /// The color class of that node.
    pub color: RowColor,
    /// Whether the active search pattern matches the label text.
    pub is_match: bool,
}

/// The view of a sequence of label lines.
pub open spec fn lines_view(contents: Seq<String>) -> Seq<Seq<char>> {
    contents.map_values(|s: String| s@)
}

/// The view of one tree item.
pub open spec fn item_view(item: TreeItem) -> NodeView
    decreases item, 0int,
{
    NodeView {
        lines: lines_view(item.contents@),
        color: item.color,
        expanded: item.expanded,
        children: items_view_from(item.children@, 0),
    }
}

/// The views of the items of `items` from position `i` on.
pub open spec fn items_view_from(items: Seq<TreeItem>, i: int) -> Seq<NodeView>
    decreases items, items.len() - i + 1,
{
    if 0 <= i < items.len() {
        seq![item_view(items[i])] + items_view_from(items, i + 1)
    } else {
        Seq::empty()
    }
}

/// The views of a whole forest of tree items.
pub open spec fn items_view(items: Seq<TreeItem>) -> Seq<NodeView> {
    items_view_from(items, 0)
}

impl View for TreeItem {
    type V = NodeView;

    open spec fn view(&self) -> NodeView {
        item_view(*self)
    }
}

impl TreeItem {
    /// Builds an entry with the given label lines, color and subtree; new
    /// entries start expanded.
    pub fn new(contents: Vec<String>, color: RowColor, children: Vec<TreeItem>) -> (item: TreeItem)
        ensures
            item@ == (NodeView {
                lines: lines_view(contents@),
                color: color,
                expanded: true,
                children: items_view(children@),
            }),
    {
        TreeItem { contents, color, children, expanded: true }
    }
}

/// The label text a search pattern is tested against: the row's lines,
/// concatenated.
pub open spec fn joined(lines: Seq<Seq<char>>) -> Seq<char>
    decreases lines.len(),
{
    if lines.len() == 0 {
        Seq::empty()
    } else {
        lines[0] + joined(lines.drop_first())
    }
}

/// The flattening of one node: the node's own row, then, only if the node is
/// expanded, the flattening of its children.  Rows carry no match flag yet;
/// see [`annotate`].
pub open spec fn flat_node(n: NodeView, path: Seq<int>) -> Seq<RowView>
    decreases n, 0int,
{
    seq![RowView { path: path, lines: n.lines, color: n.color, is_match: false }]
        + if n.expanded {
        flat_nodes_from(n.children, path, 0)
    } else {
        Seq::empty()
    }
}

/// The flattening of the nodes of `ns` from position `i` on, each under the
/// path `path.push(its index)`.
pub open spec fn flat_nodes_from(ns: Seq<NodeView>, path: Seq<int>, i: int) -> Seq<RowView>
    decreases ns, ns.len() - i + 1,
{
    if 0 <= i < ns.len() {
        flat_node(ns[i], path.push(i)) + flat_nodes_from(ns, path, i + 1)
    } else {
        Seq::empty()
    }
}

/// The flattening of a whole forest: the visible rows in visual order,
/// before search annotation.
pub open spec fn flat_forest(ns: Seq<NodeView>) -> Seq<RowView> {
    flat_nodes_from(ns, Seq::empty(), 0)
}

/// Whether the search pattern `pat` marks a row with label text `text`.
/// `None` means no search is active and marks nothing; a pattern that does
/// not compile also marks nothing (such a pattern is never stored).
pub open spec fn marks(pat: Option<Seq<char>>, text: Seq<char>) -> bool {
    match pat {
        Option::None => false,
        Option::Some(p) => regex_valid(p) && regex_match(p, text),
    }
}

/// One row of `rows` with its match flag set from the pattern `pat`.
pub open spec fn mark_row(r: RowView, pat: Option<Seq<char>>) -> RowView {
    RowView { path: r.path, lines: r.lines, color: r.color, is_match: marks(pat, joined(r.lines)) }
}

/// `rows` with each row's match flag set from the pattern `pat`.  Annotation
/// only flags rows; it never adds, removes or reorders them.
pub open spec fn annotate(rows: Seq<RowView>, pat: Option<Seq<char>>) -> Seq<RowView> {
    rows.map_values(|r: RowView| mark_row(r, pat))
}

/// One flattened, renderable row: the path of the node it shows, the node's
/// label lines (the row's height is their number), its color class, and
/// whether the active search pattern matches its label text.
#[derive(Debug)]
pub struct VisibleRow {
    pub path: Vec<usize>,
    pub contents: Vec<String>,
    pub color: RowColor,
    pub is_search_match: bool,
}

/// The view of a path of child indices.
pub open spec fn path_view(p: Seq<usize>) -> Seq<int> {
    p.map_values(|x: usize| x as int)
}

impl View for VisibleRow {
    type V = RowView;

    open spec fn view(&self) -> RowView {
        RowView {
            path: path_view(self.path@),
            lines: lines_view(self.contents@),
            color: self.color,
            is_match: self.is_search_match,
        }
    }
}

/// The views of a sequence of visible rows.
pub open spec fn rows_view(rows: Seq<VisibleRow>) -> Seq<RowView> {
    rows.map_values(|r: VisibleRow| r@)
}

/// The view of the search pattern handed to the flattener.
pub open spec fn pat_view(pat: Option<&String>) -> Option<Seq<char>> {
    match pat {
        Option::Some(p) => Option::Some(p@),
        Option::None => Option::None,
    }
}

proof fn lemma_path_view_push(p: Seq<usize>, x: usize)
    ensures
        path_view(p.push(x)) == path_view(p).push(x as int),
{
    assert(path_view(p.push(x)) =~= path_view(p).push(x as int));
}

proof fn lemma_annotate_concat(a: Seq<RowView>, b: Seq<RowView>, pat: Option<Seq<char>>)
    ensures
        annotate(a + b, pat) == annotate(a, pat) + annotate(b, pat),
{
    assert(annotate(a + b, pat) =~= annotate(a, pat) + annotate(b, pat));
}

/// Positions `i` and beyond of `items_view_from` line up with the items.
proof fn lemma_items_view_from(s: Seq<TreeItem>, i: int)
    requires
        0 <= i <= s.len(),
    ensures
        items_view_from(s, i).len() == s.len() - i,
        forall|j: int| i <= j < s.len() ==> items_view_from(s, i)[j - i] == item_view(s[j]),
    decreases s.len() - i,
{
    if i < s.len() {
        lemma_items_view_from(s, i + 1);
    }
}

/// The forest view lines up index by index with the items.
pub proof fn lemma_items_view(s: Seq<TreeItem>)
    ensures
        items_view(s).len() == s.len(),
        forall|j: int| 0 <= j < s.len() ==> items_view(s)[j] == item_view(s[j]),
{
    lemma_items_view_from(s, 0);
}

/// Search never shrinks or reorders the visible set: under any pattern,
/// annotation yields exactly as many rows as flattening with no search at
/// all, and every row keeps its path, its label lines and its color — only
/// the match flags differ.
pub proof fn lemma_search_preserves_rows(ns: Seq<NodeView>, pat: Option<Seq<char>>)
    ensures
        annotate(flat_forest(ns), pat).len() == flat_forest(ns).len(),
        annotate(flat_forest(ns), Option::None).len() == flat_forest(ns).len(),
        forall|i: int| 0 <= i < flat_forest(ns).len() ==> {
            &&& #[trigger] annotate(flat_forest(ns), pat)[i].path == flat_forest(ns)[i].path
            &&& annotate(flat_forest(ns), pat)[i].lines == flat_forest(ns)[i].lines
            &&& annotate(flat_forest(ns), pat)[i].color == flat_forest(ns)[i].color
        },
{
}

/// Flattening is deterministic: the rows are a function of the tree and the
/// pattern alone, so flattening twice with unchanged state yields identical
/// sequences — the same paths, labels and match flags.
pub proof fn lemma_flatten_idempotent(
    a: Seq<VisibleRow>,
    b: Seq<VisibleRow>,
    ns: Seq<NodeView>,
    pat: Option<Seq<char>>,
)
    requires
        rows_view(a) == annotate(flat_forest(ns), pat),
        rows_view(b) == annotate(flat_forest(ns), pat),
    ensures
        rows_view(a) == rows_view(b),
{
}

/// Looks the node up that `path` reaches below the single node `n`; the
/// empty path names `n` itself.
pub open spec fn node_below(n: NodeView, path: Seq<int>) -> Option<NodeView>
    decreases path.len(),
{
    if path.len() == 0 {
        Option::Some(n)
    } else if 0 <= path[0] < n.children.len() {
        node_below(n.children[path[0]], path.drop_first())
    } else {
        Option::None
    }
}

/// Looks the node up that `path` reaches in the forest `ns`: one child
/// index per depth level; the empty path names no node.
pub open spec fn node_at(ns: Seq<NodeView>, path: Seq<int>) -> Option<NodeView> {
    if path.len() > 0 && 0 <= path[0] < ns.len() {
        node_below(ns[path[0]], path.drop_first())
    } else {
        Option::None
    }
}

/// The node `path` reaches below `n` exists, and every node on the way —
/// `n` included, the reached node itself not — is expanded: its row is
/// shown.  The empty path names `n`, which is always shown.
pub open spec fn visible_below(n: NodeView, path: Seq<int>) -> bool
    decreases path.len(),
{
    if path.len() == 0 {
        true
    } else {
        n.expanded && 0 <= path[0] < n.children.len() && visible_below(
            n.children[path[0]],
            path.drop_first(),
        )
    }
}

/// The node `path` reaches in the forest exists and every proper ancestor
/// is expanded: exactly the nodes whose rows the flattening shows.
pub open spec fn visible_in(ns: Seq<NodeView>, path: Seq<int>) -> bool {
    if path.len() > 0 && 0 <= path[0] < ns.len() {
        visible_below(ns[path[0]], path.drop_first())
    } else {
        false
    }
}

/// Every row of the flattening of `n` at `p` carries a path that extends
/// `p`, reaches a shown node, and leads back to a node with that row's
/// label and color.
proof fn lemma_flat_node_paths(n: NodeView, p: Seq<int>)
    ensures
        forall|k: int| 0 <= k < flat_node(n, p).len() ==> {
            let r = #[trigger] flat_node(n, p)[k];
            &&& p.is_prefix_of(r.path)
            &&& visible_below(n, r.path.skip(p.len() as int))
            &&& node_below(n, r.path.skip(p.len() as int)) matches Option::Some(m) && m.lines
                == r.lines && m.color == r.color
        },
    decreases n, 0int,
{
    assert(flat_node(n, p)[0].path == p);
    assert(p.skip(p.len() as int) =~= Seq::<int>::empty());
    assert(p.is_prefix_of(p)) by {
        assert(p.take(p.len() as int) =~= p);
    }
    if n.expanded {
        lemma_flat_nodes_paths(n.children, p, 0);
        assert forall|k: int| 1 <= k < flat_node(n, p).len() implies {
            let r = #[trigger] flat_node(n, p)[k];
            &&& p.is_prefix_of(r.path)
            &&& visible_below(n, r.path.skip(p.len() as int))
            &&& node_below(n, r.path.skip(p.len() as int)) matches Option::Some(m) && m.lines
                == r.lines && m.color == r.color
        } by {
            let r = flat_node(n, p)[k];
            assert(r == flat_nodes_from(n.children, p, 0)[k - 1]);
            let s = r.path.skip(p.len() as int);
            assert(s[0] == r.path[p.len() as int]);
            assert(s.drop_first() =~= r.path.skip(p.len() as int + 1));
        }
    }
}

/// Every row of the flattening of the nodes of `ns` from position `i` on,
/// below the prefix `p`, carries a path `p.push(j)...` with `j >= i`, and
/// that path leads back to a node with the row's label and color.
proof fn lemma_flat_nodes_paths(ns: Seq<NodeView>, p: Seq<int>, i: int)
    requires
        0 <= i,
    ensures
        forall|k: int| 0 <= k < flat_nodes_from(ns, p, i).len() ==> {
            let r = #[trigger] flat_nodes_from(ns, p, i)[k];
            &&& r.path.len() > p.len()
            &&& p.is_prefix_of(r.path)
            &&& i <= r.path[p.len() as int] < ns.len()
            &&& visible_below(ns[r.path[p.len() as int]], r.path.skip(p.len() as int + 1))
            &&& node_below(
                ns[r.path[p.len() as int]],
                r.path.skip(p.len() as int + 1),
            ) matches Option::Some(m) && m.lines == r.lines && m.color == r.color
        },
    decreases ns, ns.len() - i + 1,
{
    if 0 <= i < ns.len() {
        lemma_flat_node_paths(ns[i], p.push(i));
        lemma_flat_nodes_paths(ns, p, i + 1);
        let a = flat_node(ns[i], p.push(i));
        let b = flat_nodes_from(ns, p, i + 1);
        assert forall|k: int| 0 <= k < flat_nodes_from(ns, p, i).len() implies {
            let r = #[trigger] flat_nodes_from(ns, p, i)[k];
            &&& r.path.len() > p.len()
            &&& p.is_prefix_of(r.path)
            &&& i <= r.path[p.len() as int] < ns.len()
            &&& visible_below(ns[r.path[p.len() as int]], r.path.skip(p.len() as int + 1))
            &&& node_below(
                ns[r.path[p.len() as int]],
                r.path.skip(p.len() as int + 1),
            ) matches Option::Some(m) && m.lines == r.lines && m.color == r.color
        } by {
            let r = flat_nodes_from(ns, p, i)[k];
            if k < a.len() {
                assert(r == a[k]);
                assert(p.push(i).is_prefix_of(r.path));
                assert(r.path.take(p.push(i).len() as int) == p.push(i));
                assert(r.path.len() >= p.len() as int + 1);
                assert forall|t: int| 0 <= t < p.len() implies r.path[t] == p[t] by {
                    assert(r.path.take(p.len() as int + 1)[t] == p.push(i)[t]);
                }
                assert(p.is_prefix_of(r.path)) by {
                    assert(r.path.take(p.len() as int) =~= p);
                }
                assert(r.path[p.len() as int] == p.push(i)[p.len() as int]);
                assert(r.path[p.len() as int] == i);
                assert(r.path.skip(p.push(i).len() as int) =~= r.path.skip(p.len() as int + 1));
            } else {
                assert(r == b[k - a.len()]);
            }
        }
    }
}

/// Flattening is the pre-order walk of the visible nodes: every row's path
/// leads, in the forest it was flattened from, back to a node that carries
/// exactly that row's label lines and color.
pub proof fn lemma_flatten_paths_resolve(ns: Seq<NodeView>)
    ensures
        forall|k: int| 0 <= k < flat_forest(ns).len() ==> {
            let r = #[trigger] flat_forest(ns)[k];
            node_at(ns, r.path) matches Option::Some(m) && m.lines == r.lines && m.color
                == r.color
        },
{
    lemma_flat_nodes_paths(ns, Seq::empty(), 0);
    assert forall|k: int| 0 <= k < flat_forest(ns).len() implies {
        let r = #[trigger] flat_forest(ns)[k];
        node_at(ns, r.path) matches Option::Some(m) && m.lines == r.lines && m.color == r.color
    } by {
        let r = flat_forest(ns)[k];
        assert(r == flat_nodes_from(ns, Seq::empty(), 0)[k]);
        assert(r.path.skip(0) =~= r.path);
        assert(r.path.drop_first() =~= r.path.skip(1));
    }
}

/// Strict lexicographic order on paths: the order in which the depth-first
/// pre-order walk visits the nodes they reach — the visual order of rows.
pub open spec fn path_lex_less(a: Seq<int>, b: Seq<int>) -> bool
    decreases a.len(),
{
    if a.len() == 0 {
        b.len() > 0
    } else if b.len() == 0 {
        false
    } else if a[0] < b[0] {
        true
    } else if a[0] > b[0] {
        false
    } else {
        path_lex_less(a.drop_first(), b.drop_first())
    }
}

/// A path comes before every path strictly below it.
proof fn lemma_lex_prefix(a: Seq<int>, b: Seq<int>)
    requires
        a.is_prefix_of(b),
        a.len() < b.len(),
    ensures
        path_lex_less(a, b),
    decreases a.len(),
{
    if a.len() > 0 {
        assert(a[0] == b[0]) by {
            assert(b.take(a.len() as int)[0] == b[0]);
        }
        assert(a.drop_first().is_prefix_of(b.drop_first())) by {
            assert(a.drop_first() =~= b.drop_first().take(a.len() as int - 1));
        }
        lemma_lex_prefix(a.drop_first(), b.drop_first());
    }
}

/// Paths that follow a common prefix `p` with different child indices
/// compare by those indices.
proof fn lemma_lex_branch(x: Seq<int>, y: Seq<int>, p: Seq<int>)
    requires
        p.is_prefix_of(x),
        p.is_prefix_of(y),
        x.len() > p.len(),
        y.len() > p.len(),
        x[p.len() as int] < y[p.len() as int],
    ensures
        path_lex_less(x, y),
    decreases p.len(),
{
    if p.len() == 0 {
    } else {
        assert(x[0] == p[0]) by {
            assert(x.take(p.len() as int)[0] == x[0]);
        }
        assert(y[0] == p[0]) by {
            assert(y.take(p.len() as int)[0] == y[0]);
        }
        assert(p.drop_first().is_prefix_of(x.drop_first())) by {
            assert(p.drop_first() =~= x.drop_first().take(p.len() as int - 1));
        }
        assert(p.drop_first().is_prefix_of(y.drop_first())) by {
            assert(p.drop_first() =~= y.drop_first().take(p.len() as int - 1));
        }
        assert(x.drop_first()[p.len() as int - 1] == x[p.len() as int]);
        assert(y.drop_first()[p.len() as int - 1] == y[p.len() as int]);
        lemma_lex_branch(x.drop_first(), y.drop_first(), p.drop_first());
    }
}

/// The rows of the flattening of one node are strictly ordered, and the
/// node's own row comes first.
proof fn lemma_flat_node_sorted(n: NodeView, p: Seq<int>)
    ensures
        flat_node(n, p).len() > 0,
        flat_node(n, p)[0].path == p,
        forall|k1: int, k2: int| 0 <= k1 < k2 < flat_node(n, p).len() ==> path_lex_less(
            #[trigger] flat_node(n, p)[k1].path,
            #[trigger] flat_node(n, p)[k2].path,
        ),
    decreases n, 0int,
{
    if n.expanded {
        lemma_flat_nodes_sorted(n.children, p, 0);
        lemma_flat_nodes_paths(n.children, p, 0);
        assert forall|k1: int, k2: int|
            0 <= k1 < k2 < flat_node(n, p).len() implies path_lex_less(
            #[trigger] flat_node(n, p)[k1].path,
            #[trigger] flat_node(n, p)[k2].path,
        ) by {
            let b = flat_nodes_from(n.children, p, 0);
            assert(flat_node(n, p)[k2] == b[k2 - 1]);
            if k1 == 0 {
                lemma_lex_prefix(p, b[k2 - 1].path);
            } else {
                assert(flat_node(n, p)[k1] == b[k1 - 1]);
            }
        }
    }
}

/// The rows of the flattening of the nodes from position `i` on are
/// strictly ordered.
proof fn lemma_flat_nodes_sorted(ns: Seq<NodeView>, p: Seq<int>, i: int)
    requires
        0 <= i,
    ensures
        forall|k1: int, k2: int| 0 <= k1 < k2 < flat_nodes_from(ns, p, i).len() ==> path_lex_less(
            #[trigger] flat_nodes_from(ns, p, i)[k1].path,
            #[trigger] flat_nodes_from(ns, p, i)[k2].path,
        ),
    decreases ns, ns.len() - i + 1,
{
    if 0 <= i < ns.len() {
        lemma_flat_node_sorted(ns[i], p.push(i));
        lemma_flat_nodes_sorted(ns, p, i + 1);
        lemma_flat_node_paths(ns[i], p.push(i));
        lemma_flat_nodes_paths(ns, p, i + 1);
        lemma_flat_nodes_paths(ns, p, i);
        let a = flat_node(ns[i], p.push(i));
        let b = flat_nodes_from(ns, p, i + 1);
        assert forall|k1: int, k2: int|
            0 <= k1 < k2 < flat_nodes_from(ns, p, i).len() implies path_lex_less(
            #[trigger] flat_nodes_from(ns, p, i)[k1].path,
            #[trigger] flat_nodes_from(ns, p, i)[k2].path,
        ) by {
            let x = flat_nodes_from(ns, p, i)[k1];
            let y = flat_nodes_from(ns, p, i)[k2];
            if k2 < a.len() {
                assert(x == a[k1] && y == a[k2]);
            } else if k1 >= a.len() {
                assert(x == b[k1 - a.len()] && y == b[k2 - a.len()]);
            } else {
                assert(x == a[k1] && y == b[k2 - a.len()]);
                assert(p.push(i).is_prefix_of(x.path));
                assert(x.path.take(p.len() as int + 1) == p.push(i));
                assert(x.path[p.len() as int] == i) by {
                    assert(x.path.take(p.len() as int + 1)[p.len() as int] == x.path[p.len()
                        as int]);
                }
                assert forall|t: int| 0 <= t < p.len() implies x.path[t] == p[t] by {
                    assert(x.path.take(p.len() as int + 1)[t] == p.push(i)[t]);
                }
                assert(p.is_prefix_of(x.path)) by {
                    assert(x.path.take(p.len() as int) =~= p);
                }
                assert(p.is_prefix_of(y.path));
                assert(y.path[p.len() as int] >= i + 1);
                lemma_lex_branch(x.path, y.path, p);
            }
        }
    }
}

/// Each row of the flattening of the single node `ns[j]` stands somewhere
/// in the flattening of the nodes from position `i <= j` on.
proof fn lemma_flat_segment(ns: Seq<NodeView>, p: Seq<int>, i: int, j: int, k0: int)
    requires
        0 <= i <= j < ns.len(),
        0 <= k0 < flat_node(ns[j], p.push(j)).len(),
    ensures
        exists|k: int|
            0 <= k < flat_nodes_from(ns, p, i).len() && #[trigger] flat_nodes_from(ns, p, i)[k]
                == flat_node(ns[j], p.push(j))[k0],
    decreases j - i,
{
    if i == j {
        assert(flat_nodes_from(ns, p, i)[k0] == flat_node(ns[j], p.push(j))[k0]);
    } else {
        lemma_flat_segment(ns, p, i + 1, j, k0);
        let k1 = choose|k1: int|
            0 <= k1 < flat_nodes_from(ns, p, i + 1).len() && #[trigger] flat_nodes_from(
                ns,
                p,
                i + 1,
            )[k1] == flat_node(ns[j], p.push(j))[k0];
        let off = flat_node(ns[i], p.push(i)).len();
        assert(flat_nodes_from(ns, p, i)[off + k1] == flat_nodes_from(ns, p, i + 1)[k1]);
    }
}

/// Every node shown below `n` has its row in the flattening of `n`: the
/// row whose path is the node's path below `n`, prefixed with `p`.
proof fn lemma_visible_below_in_flat(n: NodeView, p: Seq<int>, s: Seq<int>)
    requires
        visible_below(n, s),
    ensures
        exists|k: int|
            0 <= k < flat_node(n, p).len() && #[trigger] flat_node(n, p)[k].path == p + s,
    decreases s.len(),
{
    if s.len() == 0 {
        assert(p + s =~= p);
        assert(flat_node(n, p)[0].path == p + s);
    } else {
        let j = s[0];
        lemma_visible_below_in_flat(n.children[j], p.push(j), s.drop_first());
        let k0 = choose|k0: int|
            0 <= k0 < flat_node(n.children[j], p.push(j)).len() && #[trigger] flat_node(
                n.children[j],
                p.push(j),
            )[k0].path == p.push(j) + s.drop_first();
        lemma_flat_segment(n.children, p, 0, j, k0);
        let k1 = choose|k1: int|
            0 <= k1 < flat_nodes_from(n.children, p, 0).len() && #[trigger] flat_nodes_from(
                n.children,
                p,
                0,
            )[k1] == flat_node(n.children[j], p.push(j))[k0];
        assert(p.push(j) + s.drop_first() =~= p + s);
        assert(flat_node(n, p)[k1 + 1] == flat_nodes_from(n.children, p, 0)[k1]);
        assert(flat_node(n, p)[k1 + 1].path == p + s);
    }
}

/// Flattening is order-preserving and exact: the rows are precisely the
/// nodes reachable through a chain of expanded ancestors — every row's
/// path reaches such a node, and every such node has a row — and they
/// stand in strictly increasing lexicographic path order, which is the
/// depth-first pre-order of the walk.
pub proof fn lemma_flatten_preorder(ns: Seq<NodeView>)
    ensures
        forall|k: int| 0 <= k < flat_forest(ns).len() ==> visible_in(
            ns,
            #[trigger] flat_forest(ns)[k].path,
        ),
        forall|path: Seq<int>| #[trigger] visible_in(ns, path) ==> exists|k: int|
            0 <= k < flat_forest(ns).len() && flat_forest(ns)[k].path == path,
        forall|k1: int, k2: int| 0 <= k1 < k2 < flat_forest(ns).len() ==> path_lex_less(
            #[trigger] flat_forest(ns)[k1].path,
            #[trigger] flat_forest(ns)[k2].path,
        ),
{
    lemma_flat_nodes_paths(ns, Seq::empty(), 0);
    lemma_flat_nodes_sorted(ns, Seq::empty(), 0);
    assert forall|k: int| 0 <= k < flat_forest(ns).len() implies visible_in(
        ns,
        #[trigger] flat_forest(ns)[k].path,
    ) by {
        let r = flat_forest(ns)[k];
        assert(r == flat_nodes_from(ns, Seq::empty(), 0)[k]);
        assert(r.path.drop_first() =~= r.path.skip(1));
    }
    assert forall|path: Seq<int>| #[trigger] visible_in(ns, path) implies exists|k: int|
        0 <= k < flat_forest(ns).len() && flat_forest(ns)[k].path == path by {
        let j = path[0];
        lemma_visible_below_in_flat(ns[j], Seq::empty().push(j), path.drop_first());
        let k0 = choose|k0: int|
            0 <= k0 < flat_node(ns[j], Seq::empty().push(j)).len() && #[trigger] flat_node(
                ns[j],
                Seq::empty().push(j),
            )[k0].path == Seq::empty().push(j) + path.drop_first();
        lemma_flat_segment(ns, Seq::empty(), 0, j, k0);
        let k1 = choose|k1: int|
            0 <= k1 < flat_nodes_from(ns, Seq::empty(), 0).len() && #[trigger] flat_nodes_from(
                ns,
                Seq::empty(),
                0,
            )[k1] == flat_node(ns[j], Seq::empty().push(j))[k0];
        assert(Seq::empty().push(j) + path.drop_first() =~= path);
        assert(flat_forest(ns)[k1].path == path);
    }
}

/// `n` with the expand flag of the node that `path` reaches (relative to
/// `n`; the empty path names `n` itself) set to `value`; `n` unchanged when
/// the path leads nowhere.
pub open spec fn set_exp_node(n: NodeView, path: Seq<int>, value: bool) -> NodeView
    decreases path.len(),
{
    if path.len() == 0 {
        NodeView { lines: n.lines, color: n.color, expanded: value, children: n.children }
    } else if 0 <= path[0] < n.children.len() {
        NodeView {
            lines: n.lines,
            color: n.color,
            expanded: n.expanded,
            children: n.children.update(
                path[0],
                set_exp_node(n.children[path[0]], path.drop_first(), value),
            ),
        }
    } else {
        n
    }
}

/// The forest `ns` with the expand flag of the node at `path` set to
/// `value`; unchanged when the path leads nowhere.
pub open spec fn set_exp_forest(ns: Seq<NodeView>, path: Seq<int>, value: bool) -> Seq<NodeView> {
    if path.len() > 0 && 0 <= path[0] < ns.len() {
        ns.update(path[0], set_exp_node(ns[path[0]], path.drop_first(), value))
    } else {
        ns
    }
}

/// `n` with every expand flag in its subtree set to `value`.
pub open spec fn set_all_node(n: NodeView, value: bool) -> NodeView
    decreases n, 0int,
{
    NodeView {
        lines: n.lines,
        color: n.color,
        expanded: value,
        children: set_all_from(n.children, 0, value),
    }
}

/// The nodes of `ns` from position `i` on, each with every expand flag set
/// to `value`.
pub open spec fn set_all_from(ns: Seq<NodeView>, i: int, value: bool) -> Seq<NodeView>
    decreases ns, ns.len() - i + 1,
{
    if 0 <= i < ns.len() {
        seq![set_all_node(ns[i], value)] + set_all_from(ns, i + 1, value)
    } else {
        Seq::empty()
    }
}

/// The whole forest with every expand flag set to `value`.
pub open spec fn set_all_forest(ns: Seq<NodeView>, value: bool) -> Seq<NodeView> {
    set_all_from(ns, 0, value)
}

proof fn lemma_set_all_from(ns: Seq<NodeView>, i: int, value: bool)
    requires
        0 <= i <= ns.len(),
    ensures
        set_all_from(ns, i, value).len() == ns.len() - i,
        forall|j: int| i <= j < ns.len() ==> set_all_from(ns, i, value)[j - i] == set_all_node(
            ns[j],
            value,
        ),
    decreases ns.len() - i,
{
    if i < ns.len() {
        lemma_set_all_from(ns, i + 1, value);
    }
}

/// The forest with every flag set lines up index by index with the forest.
proof fn lemma_set_all(ns: Seq<NodeView>, value: bool)
    ensures
        set_all_forest(ns, value).len() == ns.len(),
        forall|j: int| 0 <= j < ns.len() ==> set_all_forest(ns, value)[j] == set_all_node(
            ns[j],
            value,
        ),
{
    lemma_set_all_from(ns, 0, value);
    assert forall|j: int| 0 <= j < ns.len() implies set_all_forest(ns, value)[j] == set_all_node(
        ns[j],
        value,
    ) by {
        assert(set_all_from(ns, 0, value)[j - 0] == set_all_node(ns[j], value));
    };
}

proof fn lemma_items_view_update(s: Seq<TreeItem>, i: int, x: TreeItem)
    requires
        0 <= i < s.len(),
    ensures
        items_view(s.update(i, x)) == items_view(s).update(i, item_view(x)),
{
    lemma_items_view(s);
    lemma_items_view(s.update(i, x));
    assert(items_view(s.update(i, x)) =~= items_view(s).update(i, item_view(x)));
}

/// Sets the expand flag of the node that `path[depth..]` reaches below
/// `item`; a no-op when the path leads nowhere.
fn set_exp_item(item: &mut TreeItem, path: &Vec<usize>, depth: usize, value: bool)
    requires
        depth <= path@.len(),
    ensures
        item_view(*final(item)) == set_exp_node(
            item_view(*old(item)),
            path_view(path@).skip(depth as int),
            value,
        ),
    decreases path@.len() - depth,
{
    let ghost n = item_view(*item);
    let ghost rest = path_view(path@).skip(depth as int);
    if depth == path.len() {
        item.expanded = value;
        proof {
            assert(rest.len() == 0);
            assert(item_view(*item) == set_exp_node(n, rest, value));
        }
    } else {
        let i = path[depth];
        proof {
            assert(rest.len() == path@.len() - depth);
            assert(rest[0] == path_view(path@)[depth as int]);
            assert(rest[0] == i as int);
            lemma_items_view(item.children@);
        }
        if i < item.children.len() {
            let ghost oldch = item.children@;
            let child = &mut item.children[i];
            set_exp_item(child, path, depth + 1, value);
            proof {
                lemma_items_view_update(oldch, i as int, *child);
                assert(rest.drop_first() =~= path_view(path@).skip(depth + 1));
                assert(n.children[i as int] == item_view(oldch[i as int]));
                assert(items_view(item.children@) == n.children.update(
                    i as int,
                    set_exp_node(n.children[i as int], rest.drop_first(), value),
                ));
                assert(item_view(*item) == set_exp_node(n, rest, value));
            }
        } else {
            proof {
                assert(rest[0] >= n.children.len());
                assert(item_view(*item) == set_exp_node(n, rest, value));
            }
        }
    }
}

/// Sets the expand flag of the node at `path` in the forest; a no-op when
/// the path leads nowhere.
pub(crate) fn set_exp_forest_exec(items: &mut Vec<TreeItem>, path: &Vec<usize>, value: bool)
    ensures
        items_view(final(items)@) == set_exp_forest(
            items_view(old(items)@),
            path_view(path@),
            value,
        ),
{
    let ghost ns = items_view(items@);
    let ghost pv = path_view(path@);
    proof {
        lemma_items_view(items@);
    }
    if path.len() == 0 {
        proof {
            assert(pv.len() == 0);
        }
        return ;
    }
    let i = path[0];
    proof {
        assert(pv[0] == i as int);
    }
    if i < items.len() {
        let ghost oldits = items@;
        let item = &mut items[i];
        set_exp_item(item, path, 1, value);
        proof {
            lemma_items_view_update(oldits, i as int, *item);
            assert(pv.drop_first() =~= pv.skip(1));
            assert(ns[i as int] == item_view(oldits[i as int]));
            assert(items_view(items@) == set_exp_forest(ns, pv, value));
        }
    } else {
        proof {
            assert(pv[0] >= ns.len());
        }
    }
}

/// Rebuilds `item` with every expand flag in its subtree set to `value`.
#[verifier::loop_isolation(false)]
fn set_all_item(item: &TreeItem, value: bool) -> (r: TreeItem)
    ensures
        item_view(r) == set_all_node(item_view(*item), value),
    decreases *item,
{
    let ghost cv = item@.children;
    proof {
        lemma_items_view(item.children@);
        lemma_set_all(cv, value);
    }
    let mut children: Vec<TreeItem> = Vec::new();
    let mut i: usize = 0;
    while i < item.children.len()
        invariant
            i <= item.children@.len(),
            children@.len() == i,
            forall|j: int| 0 <= j < i ==> item_view(children@[j]) == set_all_node(cv[j], value),
        decreases item.children@.len() - i,
    {
        children.push(set_all_item(&item.children[i], value));
        i += 1;
    }
    let r = TreeItem {
        contents: copy_lines(&item.contents),
        color: item.color,
        children,
        expanded: value,
    };
    proof {
        lemma_items_view(r.children@);
        assert(items_view(r.children@) =~= set_all_from(cv, 0, value));
        assert(item_view(r) == set_all_node(item_view(*item), value));
    }
    r
}

/// Rebuilds the forest with every expand flag set to `value`.
#[verifier::loop_isolation(false)]
pub(crate) fn set_all_forest_exec(items: &mut Vec<TreeItem>, value: bool)
    ensures
        items_view(final(items)@) == set_all_forest(items_view(old(items)@), value),
{
    let ghost ns = items_view(items@);
    proof {
        lemma_items_view(items@);
        lemma_set_all(ns, value);
    }
    let mut result: Vec<TreeItem> = Vec::new();
    let mut i: usize = 0;
    while i < items.len()
        invariant
            i <= items@.len(),
            result@.len() == i,
            forall|j: int| 0 <= j < i ==> item_view(result@[j]) == set_all_node(ns[j], value),
        decreases items@.len() - i,
    {
        result.push(set_all_item(&items[i], value));
        i += 1;
    }
    proof {
        lemma_items_view(result@);
        assert(items_view(result@) =~= set_all_forest(ns, value));
    }
    *items = result;
}

/// Copies a path of child indices.
pub(crate) fn copy_path(p: &Vec<usize>) -> (r: Vec<usize>)
    ensures
        r@ == p@,
{
    let mut r: Vec<usize> = Vec::new();
    let mut i: usize = 0;
    while i < p.len()
        invariant
            i <= p.len(),
            r@ == p@.take(i as int),
        decreases p.len() - i,
    {
        r.push(p[i]);
        assert(p@.take(i + 1) =~= p@.take(i as int).push(p@[i as int]));
        i += 1;
    }
    assert(p@.take(p.len() as int) =~= p@);
    r
}

/// Copies the label lines of a row.
pub(crate) fn copy_lines(v: &Vec<String>) -> (r: Vec<String>)
    ensures
        r@ == v@,
{
    let mut r: Vec<String> = Vec::new();
    let mut i: usize = 0;
    while i < v.len()
        invariant
            i <= v.len(),
            r@ == v@.take(i as int),
        decreases v.len() - i,
    {
        r.push(v[i].clone());
        assert(v@.take(i + 1) =~= v@.take(i as int).push(v@[i as int]));
        i += 1;
    }
    assert(v@.take(v.len() as int) =~= v@);
    r
}

/// The label text of a row as one string: its lines, concatenated.
fn joined_text(lines: &Vec<String>) -> (t: String)
    ensures
        t@ == joined(lines_view(lines@)),
{
    let ghost lv = lines_view(lines@);
    let mut t = String::new();
    proof {
        assert(lv.skip(0) =~= lv);
        assert(Seq::<char>::empty() + joined(lv) =~= joined(lv));
    }
    let mut i: usize = 0;
    while i < lines.len()
        invariant
            i <= lines.len(),
            lv == lines_view(lines@),
            lv.len() == lines@.len(),
            t@ + joined(lv.skip(i as int)) == joined(lv),
        decreases lines.len() - i,
    {
        proof {
            assert(lv.skip(i as int).drop_first() =~= lv.skip(i + 1));
            assert(lv.skip(i as int)[0] == lv[i as int]);
            assert(joined(lv.skip(i as int)) == lv[i as int] + joined(lv.skip(i + 1)));
        }
        t.append(lines[i].as_str());
        proof {
            assert(t@ + joined(lv.skip(i + 1)) =~= joined(lv));
        }
        i += 1;
    }
    proof {
        assert(lv.skip(lines@.len() as int) =~= Seq::<Seq<char>>::empty());
        assert(t@ =~= joined(lv));
    }
    t
}

/// Tests the label text of one row against the active pattern.
/// `valid` caches whether the pattern compiles.
fn row_is_match(pat: Option<&String>, valid: bool, text: &String) -> (m: bool)
    requires
        valid == (match pat_view(pat) {
            Option::Some(p) => regex_valid(p),
            Option::None => false,
        }),
    ensures
        m == marks(pat_view(pat), text@),
{
    match pat {
        Option::Some(p) => {
            if valid {
                regex_text_match(p.as_str(), text.as_str())
            } else {
                false
            }
        },
        Option::None => false,
    }
}

/// Appends to `out` the flattening of the subtree rooted at `item`, whose
/// own row stands at `path`, with each row's search flag set from `pat`.
#[verifier::loop_isolation(false)]
fn flatten_item_into(
    item: &TreeItem,
    path: &mut Vec<usize>,
    pat: Option<&String>,
    valid: bool,
    out: &mut Vec<VisibleRow>,
)
    requires
        valid == (match pat_view(pat) {
            Option::Some(p) => regex_valid(p),
            Option::None => false,
        }),
    ensures
        final(path)@ == old(path)@,
        rows_view(final(out)@) == rows_view(old(out)@) + annotate(
            flat_node(item@, path_view(old(path)@)),
            pat_view(pat),
        ),
    decreases *item,
{
    let ghost pv = path_view(path@);
    let ghost n = item@;
    let text = joined_text(&item.contents);
    let m = row_is_match(pat, valid, &text);
    let row = VisibleRow {
        path: copy_path(path),
        contents: copy_lines(&item.contents),
        color: item.color,
        is_search_match: m,
    };
    proof {
        assert(row@ == mark_row(
            RowView { path: pv, lines: n.lines, color: n.color, is_match: false },
            pat_view(pat),
        ));
    }
    out.push(row);
    let ghost out1 = out@;
    proof {
        assert(rows_view(out1) =~= rows_view(old(out)@) + annotate(
            seq![RowView { path: pv, lines: n.lines, color: n.color, is_match: false }],
            pat_view(pat),
        ));
    }
    if item.expanded {
        let ghost cv = n.children;
        proof {
            lemma_items_view(item.children@);
        }
        let mut i: usize = 0;
        while i < item.children.len()
            invariant
                i <= item.children.len(),
                cv == item@.children,
                cv.len() == item.children@.len(),
                forall|j: int| 0 <= j < cv.len() ==> cv[j] == item_view(item.children@[j]),
                valid == (match pat_view(pat) {
                    Option::Some(p) => regex_valid(p),
                    Option::None => false,
                }),
                path@ == old(path)@,
                rows_view(out@) + annotate(flat_nodes_from(cv, pv, i as int), pat_view(pat))
                    == rows_view(out1) + annotate(flat_nodes_from(cv, pv, 0), pat_view(pat)),
            decreases item.children.len() - i,
        {
            path.push(i);
            let ghost before = out@;
            flatten_item_into(&item.children[i], path, pat, valid, out);
            path.pop();
            proof {
                assert(path@ =~= old(path)@);
                lemma_path_view_push(old(path)@, i);
                let a = flat_node(cv[i as int], pv.push(i as int));
                let b = flat_nodes_from(cv, pv, i + 1);
                let p2 = pat_view(pat);
                assert(rows_view(out@) == rows_view(before) + annotate(a, p2));
                assert(flat_nodes_from(cv, pv, i as int) == a + b);
                lemma_annotate_concat(a, b, p2);
                assert((rows_view(before) + annotate(a, p2)) + annotate(b, p2) =~= rows_view(
                    before,
                ) + (annotate(a, p2) + annotate(b, p2)));
                assert(rows_view(out@) + annotate(b, p2) == rows_view(before) + annotate(
                    flat_nodes_from(cv, pv, i as int),
                    p2,
                ));
                assert(rows_view(out@) + annotate(flat_nodes_from(cv, pv, i + 1), pat_view(pat))
                    == rows_view(out1) + annotate(flat_nodes_from(cv, pv, 0), pat_view(pat)));
            }
            i += 1;
        }
        proof {
            assert(flat_nodes_from(cv, pv, cv.len() as int) =~= Seq::<RowView>::empty());
            assert(annotate(Seq::<RowView>::empty(), pat_view(pat)) =~= Seq::<RowView>::empty());
            assert(rows_view(out@) =~= rows_view(out1) + annotate(
                flat_nodes_from(cv, pv, 0),
                pat_view(pat),
            ));
            lemma_annotate_concat(
                seq![RowView { path: pv, lines: n.lines, color: n.color, is_match: false }],
                flat_nodes_from(cv, pv, 0),
                pat_view(pat),
            );
            assert(rows_view(out@) =~= rows_view(old(out)@) + annotate(
                flat_node(n, pv),
                pat_view(pat),
            ));
        }
    } else {
        proof {
            assert(flat_node(n, pv) =~= seq![
                RowView { path: pv, lines: n.lines, color: n.color, is_match: false },
            ]);
            assert(rows_view(out@) =~= rows_view(old(out)@) + annotate(
                flat_node(n, pv),
                pat_view(pat),
            ));
        }
    }
}

/// Flattens a forest of tree items into its sequence of visible rows, in
/// visual order, each row flagged if the search pattern `pattern` matches
/// its label text.  A pattern that does not compile flags nothing; `None`
/// (no active search) also flags nothing.
#[verifier::loop_isolation(false)]
pub fn flatten(items: &Vec<TreeItem>, pattern: Option<&String>) -> (rows: Vec<VisibleRow>)
    ensures
        rows_view(rows@) == annotate(flat_forest(items_view(items@)), pat_view(pattern)),
{
    let valid = match pattern {
        Option::Some(p) => crate::search::regex_compile_ok(p.as_str()),
        Option::None => false,
    };
    let ghost ns = items_view(items@);
    proof {
        lemma_items_view(items@);
    }
    let mut out: Vec<VisibleRow> = Vec::new();
    let mut path: Vec<usize> = Vec::new();
    let mut i: usize = 0;
    while i < items.len()
        invariant
            i <= items.len(),
            ns == items_view(items@),
            ns.len() == items@.len(),
            forall|j: int| 0 <= j < ns.len() ==> ns[j] == item_view(items@[j]),
            valid == (match pat_view(pattern) {
                Option::Some(p) => regex_valid(p),
                Option::None => false,
            }),
            path@ == Seq::<usize>::empty(),
            rows_view(out@) + annotate(
                flat_nodes_from(ns, Seq::empty(), i as int),
                pat_view(pattern),
            ) == annotate(flat_nodes_from(ns, Seq::empty(), 0), pat_view(pattern)),
        decreases items.len() - i,
    {
        path.push(i);
        flatten_item_into(&items[i], &mut path, pattern, valid, &mut out);
        path.pop();
        proof {
            assert(path@ =~= Seq::<usize>::empty());
            assert(path_view(Seq::<usize>::empty().push(i)) =~= Seq::<int>::empty().push(
                i as int,
            ));
            assert(flat_nodes_from(ns, Seq::empty(), i as int) == flat_node(
                ns[i as int],
                Seq::empty().push(i as int),
            ) + flat_nodes_from(ns, Seq::empty(), i + 1));
            lemma_annotate_concat(
                flat_node(ns[i as int], Seq::empty().push(i as int)),
                flat_nodes_from(ns, Seq::empty(), i + 1),
                pat_view(pattern),
            );
            assert(rows_view(out@) + annotate(
                flat_nodes_from(ns, Seq::empty(), i + 1),
                pat_view(pattern),
            ) =~= annotate(flat_nodes_from(ns, Seq::empty(), 0), pat_view(pattern)));
        }
        i += 1;
    }
    proof {
        assert(flat_nodes_from(ns, Seq::empty(), ns.len() as int) =~= Seq::<RowView>::empty());
        assert(annotate(Seq::<RowView>::empty(), pat_view(pattern))
            =~= Seq::<RowView>::empty());
        assert(rows_view(out@) =~= annotate(flat_forest(ns), pat_view(pattern)));
    }
    out
}

} // verus!
