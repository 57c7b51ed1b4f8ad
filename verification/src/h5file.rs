//! The in-memory picture of a hierarchical scientific file.
//!
//! A file holds a forest of entities: groups, which hold further entities,
//! and datasets, which are leaves.  Each carries the metadata the detail
//! pane shows.  The selection resolver walks a path of child indices back
//! into this hierarchy to fetch the entity whose row is selected; a path
//! that leads nowhere is a desynchronization between the drawn rows and the
//! tree, surfaced as an error rather than papered over.

use vstd::prelude::*;

use crate::tree::copy_lines;
use crate::tree::copy_path;
use crate::tree::items_view;
use crate::tree::lines_view;
use crate::tree::path_view;
use crate::tree::NodeView;
use crate::tree::RowColor;
use crate::tree::TreeItem;

verus! {

/// How an entity is linked into its parent group.
#[derive(Clone, Copy, Debug, PartialEq, Eq, Structural)]
pub enum LinkKind {
    Hard,
    Soft,
    External,
}

/// The display text of a link kind.
pub open spec fn link_kind_text(k: LinkKind) -> Seq<char> {
    match k {
        LinkKind::Hard => "Hard"@,
        LinkKind::Soft => "Soft"@,
        LinkKind::External => "External"@,
    }
}

impl LinkKind {
    /// The display text of this link kind, as the detail pane shows it.
    pub fn to_string(&self) -> (r: String)
        ensures
            r@ == link_kind_text(*self),
    {
        match self {
            LinkKind::Hard => "Hard".to_owned(),
            LinkKind::Soft => "Soft".to_owned(),
            LinkKind::External => "External".to_owned(),
        }
    }
}

/// How a dataset is laid out on storage.  For a chunked dataset the chunk
/// shape and the text of each applied filter are kept for the detail pane.
#[derive(Clone, Debug)]
pub enum DatasetLayoutInfo {
    Compact {},
    Contiguous {},
    Chunked { chunk_shape: Vec<usize>, filters: Vec<String> },
    Virtial {},
}

/// The mathematical value of a [`DatasetLayoutInfo`].
pub enum LayoutView {
    Compact,
    Contiguous,
    Chunked { chunk_shape: Seq<usize>, filters: Seq<Seq<char>> },
    Virtial,
}

/// The view of a dataset layout.
pub open spec fn layout_view(l: DatasetLayoutInfo) -> LayoutView {
    match l {
        DatasetLayoutInfo::Compact {  } => LayoutView::Compact,
        DatasetLayoutInfo::Contiguous {  } => LayoutView::Contiguous,
        DatasetLayoutInfo::Chunked { chunk_shape, filters } => LayoutView::Chunked {
            chunk_shape: chunk_shape@,
            filters: lines_view(filters@),
        },
        DatasetLayoutInfo::Virtial {  } => LayoutView::Virtial,
    }
}

/// The display name of a layout kind.
pub open spec fn layout_kind_text(l: LayoutView) -> Seq<char> {
    match l {
        LayoutView::Compact => "Compact"@,
        LayoutView::Contiguous => "Contiguous"@,
        LayoutView::Chunked { chunk_shape, filters } => "Chunked"@,
        LayoutView::Virtial => "Virtual"@,
    }
}

impl DatasetLayoutInfo {
    /// The display name of this layout kind, as the detail pane shows it.
    pub fn kind_name(&self) -> (r: String)
        ensures
            r@ == layout_kind_text(layout_view(*self)),
    {
        match self {
            DatasetLayoutInfo::Compact {  } => "Compact".to_owned(),
            DatasetLayoutInfo::Contiguous {  } => "Contiguous".to_owned(),
            DatasetLayoutInfo::Chunked { chunk_shape: _, filters: _ } => "Chunked".to_owned(),
            DatasetLayoutInfo::Virtial {  } => "Virtual".to_owned(),
        }
    }
}

/// One dataset: a leaf of the hierarchy.
#[derive(Clone, Debug)]
pub struct DatasetInfo {
    pub name: String,
    pub id: i64,
    pub link_type: LinkKind,
    pub shape: Vec<usize>,
    pub layout_info: DatasetLayoutInfo,
}

/// One group and the entities below it.
#[derive(Debug)]
pub struct GroupInfo {
    pub name: String,
    pub id: i64,
    pub link_kind: LinkKind,
    pub entities: Vec<EntityInfo>,
}

/// One entity of the hierarchy: a group or a dataset.
#[derive(Debug)]
pub enum EntityInfo {
    Group(GroupInfo),
    Dataset(DatasetInfo),
}

/// The mathematical value of an [`EntityInfo`].
pub enum EntityView {
    Group { name: Seq<char>, id: int, link: LinkKind, entities: Seq<EntityView> },
    Dataset { name: Seq<char>, id: int, link: LinkKind, shape: Seq<usize>, layout: LayoutView },
}

/// The view of one entity.
pub open spec fn entity_view(e: EntityInfo) -> EntityView
    decreases e, 0int,
{
    match e {
        EntityInfo::Group(g) => EntityView::Group {
            name: g.name@,
            id: g.id as int,
            link: g.link_kind,
            entities: entities_view_from(g.entities@, 0),
        },
        EntityInfo::Dataset(d) => EntityView::Dataset {
            name: d.name@,
            id: d.id as int,
            link: d.link_type,
            shape: d.shape@,
            layout: layout_view(d.layout_info),
        },
    }
}

/// The views of the entities of `es` from position `i` on.
pub open spec fn entities_view_from(es: Seq<EntityInfo>, i: int) -> Seq<EntityView>
    decreases es, es.len() - i + 1,
{
    if 0 <= i < es.len() {
        seq![entity_view(es[i])] + entities_view_from(es, i + 1)
    } else {
        Seq::empty()
    }
}

/// The views of a whole forest of entities.
pub open spec fn entities_view(es: Seq<EntityInfo>) -> Seq<EntityView> {
    entities_view_from(es, 0)
}

/// The forest view lines up index by index with the entities.
pub proof fn lemma_entities_view(es: Seq<EntityInfo>)
    ensures
        entities_view(es).len() == es.len(),
        forall|j: int| 0 <= j < es.len() ==> entities_view(es)[j] == entity_view(es[j]),
{
    lemma_entities_view_from(es, 0);
    assert forall|j: int| 0 <= j < es.len() implies entities_view(es)[j] == entity_view(
        es[j],
    ) by {
        assert(entities_view_from(es, 0)[j - 0] == entity_view(es[j]));
    };
}

proof fn lemma_entities_view_from(es: Seq<EntityInfo>, i: int)
    requires
        0 <= i <= es.len(),
    ensures
        entities_view_from(es, i).len() == es.len() - i,
        forall|j: int| i <= j < es.len() ==> entities_view_from(es, i)[j - i] == entity_view(
            es[j],
        ),
    decreases es.len() - i,
{
    if i < es.len() {
        lemma_entities_view_from(es, i + 1);
    }
}

/// Why resolving a path against the hierarchy failed: the path named a
/// child index that does not exist, or tried to descend into a dataset,
/// which has no children.  Either means the drawn rows and the tree fell
/// out of step, which correct operation never lets happen.
#[derive(Clone, Copy, Debug, PartialEq, Eq, Structural)]
pub enum ResolveError {
    NotFound,
    InvalidDescent,
}

/// Resolving `path` below the single entity `e`; the empty path names `e`
/// itself.
pub open spec fn resolve_below(e: EntityView, path: Seq<int>) -> Result<EntityView, ResolveError>
    decreases path.len(),
{
    if path.len() == 0 {
        Result::Ok(e)
    } else {
        match e {
            EntityView::Group { name, id, link, entities } => {
                if 0 <= path[0] < entities.len() {
                    resolve_below(entities[path[0]], path.drop_first())
                } else {
                    Result::Err(ResolveError::NotFound)
                }
            },
            EntityView::Dataset { name, id, link, shape, layout } => Result::Err(
                ResolveError::InvalidDescent,
            ),
        }
    }
}

/// Resolving `path` against the root forest `es`: one child index per
/// depth level.  The empty path names no entity.
pub open spec fn resolve_entities(es: Seq<EntityView>, path: Seq<int>) -> Result<
    EntityView,
    ResolveError,
> {
    if path.len() == 0 {
        Result::Err(ResolveError::NotFound)
    } else if !(0 <= path[0] < es.len()) {
        Result::Err(ResolveError::NotFound)
    } else {
        resolve_below(es[path[0]], path.drop_first())
    }
}

fn clone_layout(l: &DatasetLayoutInfo) -> (r: DatasetLayoutInfo)
    ensures
        layout_view(r) == layout_view(*l),
{
    match l {
        DatasetLayoutInfo::Compact {  } => DatasetLayoutInfo::Compact {  },
        DatasetLayoutInfo::Contiguous {  } => DatasetLayoutInfo::Contiguous {  },
        DatasetLayoutInfo::Chunked { chunk_shape, filters } => DatasetLayoutInfo::Chunked {
            chunk_shape: copy_path(chunk_shape),
            filters: copy_lines(filters),
        },
        DatasetLayoutInfo::Virtial {  } => DatasetLayoutInfo::Virtial {  },
    }
}

/// Copies one entity and everything below it.
#[verifier::loop_isolation(false)]
fn clone_entity(e: &EntityInfo) -> (r: EntityInfo)
    ensures
        entity_view(r) == entity_view(*e),
    decreases *e,
{
    match e {
        EntityInfo::Dataset(d) => EntityInfo::Dataset(
            DatasetInfo {
                name: d.name.clone(),
                id: d.id,
                link_type: d.link_type,
                shape: copy_path(&d.shape),
                layout_info: clone_layout(&d.layout_info),
            },
        ),
        EntityInfo::Group(g) => {
            let ghost gv = entities_view(g.entities@);
            proof {
                lemma_entities_view(g.entities@);
            }
            let mut entities: Vec<EntityInfo> = Vec::new();
            let mut i: usize = 0;
            while i < g.entities.len()
                invariant
                    i <= g.entities@.len(),
                    entities@.len() == i,
                    forall|j: int| 0 <= j < i ==> entity_view(entities@[j]) == gv[j],
                decreases g.entities@.len() - i,
            {
                entities.push(clone_entity(&g.entities[i]));
                i += 1;
            }
            proof {
                lemma_entities_view(entities@);
                assert(entities_view(entities@) =~= gv);
            }
            EntityInfo::Group(
                GroupInfo {
                    name: g.name.clone(),
                    id: g.id,
                    link_kind: g.link_kind,
                    entities,
                },
            )
        },
    }
}

/// The tree item a single entity is drawn as: its name as the one label
/// line, colored by kind, with a group's entities as children.
pub open spec fn entity_item(e: EntityView) -> NodeView
    decreases e, 0int,
{
    match e {
        EntityView::Group { name, id, link, entities } => NodeView {
            lines: seq![name],
            color: RowColor::Group,
            expanded: true,
            children: entity_items_from(entities, 0),
        },
        EntityView::Dataset { name, id, link, shape, layout } => NodeView {
            lines: seq![name],
            color: RowColor::Dataset,
            expanded: true,
            children: Seq::empty(),
        },
    }
}

/// The tree items of the entities of `es` from position `i` on.
pub open spec fn entity_items_from(es: Seq<EntityView>, i: int) -> Seq<NodeView>
    decreases es, es.len() - i + 1,
{
    if 0 <= i < es.len() {
        seq![entity_item(es[i])] + entity_items_from(es, i + 1)
    } else {
        Seq::empty()
    }
}

/// The tree items of a whole forest of entities.
pub open spec fn entity_items(es: Seq<EntityView>) -> Seq<NodeView> {
    entity_items_from(es, 0)
}

/// The item forest lines up index by index with the entity forest.
pub proof fn lemma_entity_items(es: Seq<EntityView>)
    ensures
        entity_items(es).len() == es.len(),
        forall|j: int| 0 <= j < es.len() ==> entity_items(es)[j] == entity_item(es[j]),
{
    lemma_entity_items_from(es, 0);
    assert forall|j: int| 0 <= j < es.len() implies entity_items(es)[j] == entity_item(
        es[j],
    ) by {
        assert(entity_items_from(es, 0)[j - 0] == entity_item(es[j]));
    };
}

proof fn lemma_entity_items_from(es: Seq<EntityView>, i: int)
    requires
        0 <= i <= es.len(),
    ensures
        entity_items_from(es, i).len() == es.len() - i,
        forall|j: int| i <= j < es.len() ==> entity_items_from(es, i)[j - i] == entity_item(
            es[j],
        ),
    decreases es.len() - i,
{
    if i < es.len() {
        lemma_entity_items_from(es, i + 1);
    }
}

impl EntityInfo {
    /// The tree item this entity is drawn as: its name, colored by kind,
    /// with a group's entities as children.
    #[verifier::loop_isolation(false)]
    pub fn to_tree_item(&self) -> (item: TreeItem)
        ensures
            crate::tree::item_view(item) == entity_item(entity_view(*self)),
        decreases *self,
    {
        match self {
            EntityInfo::Dataset(d) => {
                let mut contents: Vec<String> = Vec::new();
                contents.push(d.name.clone());
                let item = TreeItem::new(contents, RowColor::Dataset, Vec::new());
                proof {
                    assert(lines_view(seq![d.name]) =~= seq![d.name@]);
                    crate::tree::lemma_items_view(Seq::<TreeItem>::empty());
                    assert(items_view(Seq::<TreeItem>::empty()) =~= Seq::<NodeView>::empty());
                }
                item
            },
            EntityInfo::Group(g) => {
                let ghost gv = entities_view(g.entities@);
                proof {
                    lemma_entities_view(g.entities@);
                    lemma_entity_items(gv);
                }
                let mut children: Vec<TreeItem> = Vec::new();
                let mut i: usize = 0;
                while i < g.entities.len()
                    invariant
                        i <= g.entities@.len(),
                        children@.len() == i,
                        forall|j: int| 0 <= j < i ==> crate::tree::item_view(children@[j])
                            == entity_item(gv[j]),
                    decreases g.entities@.len() - i,
                {
                    children.push(g.entities[i].to_tree_item());
                    i += 1;
                }
                let mut contents: Vec<String> = Vec::new();
                contents.push(g.name.clone());
                let ghost chv = children@;
                let item = TreeItem::new(contents, RowColor::Group, children);
                proof {
                    assert(lines_view(seq![g.name]) =~= seq![g.name@]);
                    crate::tree::lemma_items_view(chv);
                    assert(items_view(chv) =~= entity_items_from(gv, 0));
                }
                item
            },
        }
    }
}

/// The name an entity shows in its tree row.
pub open spec fn entity_name(e: EntityView) -> Seq<char> {
    match e {
        EntityView::Group { name, id, link, entities } => name,
        EntityView::Dataset { name, id, link, shape, layout } => name,
    }
}

/// The single label line an entity's tree row shows.
pub open spec fn entity_lines(e: EntityView) -> Seq<Seq<char>> {
    seq![entity_name(e)]
}

/// The color class of an entity's tree row.
pub open spec fn entity_color(e: EntityView) -> RowColor {
    match e {
        EntityView::Group { name, id, link, entities } => RowColor::Group,
        EntityView::Dataset { name, id, link, shape, layout } => RowColor::Dataset,
    }
}

/// Looking a node up below an entity's tree item finds exactly the tree
/// item of the entity that resolving the same path finds.
proof fn lemma_entity_resolve_below(e: EntityView, path: Seq<int>)
    ensures
        match crate::tree::node_below(entity_item(e), path) {
            Option::Some(m) => resolve_below(e, path) matches Result::Ok(e2) && entity_item(e2)
                == m,
            Option::None => true,
        },
    decreases path.len(),
{
    if path.len() == 0 {
    } else {
        match e {
            EntityView::Group { name, id, link, entities } => {
                lemma_entity_items(entities);
                if 0 <= path[0] < entities.len() {
                    lemma_entity_resolve_below(entities[path[0]], path.drop_first());
                }
            },
            EntityView::Dataset { name, id, link, shape, layout } => {},
        }
    }
}

/// Path round-trip: every row flattened from a file's entities resolves,
/// against the source hierarchy, to the entity whose name produced that
/// row — same single label line, and the color of its kind.
pub proof fn lemma_row_paths_resolve(es: Seq<EntityView>)
    ensures
        forall|k: int| 0 <= k < crate::tree::flat_forest(entity_items(es)).len() ==> {
            let r = #[trigger] crate::tree::flat_forest(entity_items(es))[k];
            resolve_entities(es, r.path) matches Result::Ok(e) && r.lines == entity_lines(e)
                && r.color == entity_color(e)
        },
{
    let ns = entity_items(es);
    crate::tree::lemma_flatten_paths_resolve(ns);
    lemma_entity_items(es);
    assert forall|k: int| 0 <= k < crate::tree::flat_forest(ns).len() implies {
        let r = #[trigger] crate::tree::flat_forest(ns)[k];
        resolve_entities(es, r.path) matches Result::Ok(e) && r.lines == entity_lines(e)
            && r.color == entity_color(e)
    } by {
        let r = crate::tree::flat_forest(ns)[k];
        let m = crate::tree::node_at(ns, r.path).unwrap();
        let j = r.path[0];
        assert(crate::tree::node_below(ns[j], r.path.drop_first()) == Option::Some(m));
        lemma_entity_resolve_below(es[j], r.path.drop_first());
        let e = resolve_below(es[j], r.path.drop_first()).unwrap();
        assert(entity_item(e) == m);
        assert(m.lines == entity_lines(e));
    }
}

/// The loaded file: its name, its size in bytes, and its root entities.
#[derive(Debug)]
pub struct FileInfo {
    pub name: String,
    pub size: u64,
    pub entities: Vec<EntityInfo>,
}

impl FileInfo {
    /// Fetches the entity at `index`, one child index per depth level, as
    /// [`resolve_entities`] describes: `NotFound` for an index that does
    /// not exist (the empty index included), `InvalidDescent` for a path
    /// that tries to descend into a dataset.
    pub fn entity(&self, index: Vec<usize>) -> (r: Result<EntityInfo, ResolveError>)
        ensures
            match r {
                Result::Ok(e) => resolve_entities(entities_view(self.entities@), path_view(index@))
                    == Result::<EntityView, ResolveError>::Ok(entity_view(e)),
                Result::Err(err) => resolve_entities(
                    entities_view(self.entities@),
                    path_view(index@),
                ) == Result::<EntityView, ResolveError>::Err(err),
            },
    {
        let ghost ev = entities_view(self.entities@);
        let ghost pv = path_view(index@);
        proof {
            lemma_entities_view(self.entities@);
        }
        if index.len() == 0 {
            return Err(ResolveError::NotFound);
        }
        let i0 = index[0];
        proof {
            assert(pv[0] == i0 as int);
        }
        if i0 >= self.entities.len() {
            return Err(ResolveError::NotFound);
        }
        let mut cur: &EntityInfo = &self.entities[i0];
        proof {
            assert(pv.drop_first() =~= pv.skip(1));
        }
        let mut d: usize = 1;
        while d < index.len()
            invariant
                1 <= d <= index@.len(),
                pv == path_view(index@),
                pv.len() == index@.len(),
                ev == entities_view(self.entities@),
                resolve_below(entity_view(*cur), pv.skip(d as int)) == resolve_entities(ev, pv),
            decreases index@.len() - d,
        {
            let ghost rest = pv.skip(d as int);
            proof {
                assert(rest.len() == pv.len() - d);
                assert(rest[0] == pv[d as int]);
                assert(pv[d as int] == index@[d as int] as int);
                assert(rest.drop_first() =~= pv.skip(d + 1));
            }
            match cur {
                EntityInfo::Group(g) => {
                    let ghost children = entities_view(g.entities@);
                    proof {
                        lemma_entities_view(g.entities@);
                    }
                    let i = index[d];
                    if i >= g.entities.len() {
                        return Err(ResolveError::NotFound);
                    }
                    cur = &g.entities[i];
                },
                EntityInfo::Dataset(_) => {
                    return Err(ResolveError::InvalidDescent);
                },
            }
            d += 1;
        }
        proof {
            assert(pv.skip(index@.len() as int) =~= Seq::<int>::empty());
        }
        Ok(clone_entity(cur))
    }

    /// The tree items the file's root entities are drawn as.
    #[verifier::loop_isolation(false)]
    pub fn to_tree_items(&self) -> (items: Vec<TreeItem>)
        ensures
            items_view(items@) == entity_items(entities_view(self.entities@)),
    {
        let ghost ev = entities_view(self.entities@);
        proof {
            lemma_entities_view(self.entities@);
            lemma_entity_items(ev);
        }
        let mut items: Vec<TreeItem> = Vec::new();
        let mut i: usize = 0;
        while i < self.entities.len()
            invariant
                i <= self.entities@.len(),
                items@.len() == i,
                forall|j: int| 0 <= j < i ==> crate::tree::item_view(items@[j]) == entity_item(
                    ev[j],
                ),
            decreases self.entities@.len() - i,
        {
            items.push(self.entities[i].to_tree_item());
            i += 1;
        }
        proof {
            crate::tree::lemma_items_view(items@);
            assert(items_view(items@) =~= entity_items(ev));
        }
        items
    }
}

} // verus!
