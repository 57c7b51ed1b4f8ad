use h5tui::{
    DatasetInfo, DatasetLayoutInfo, EntityInfo, FileInfo, GroupInfo, LinkKind, ResolveError,
    RowColor, TreeState,
};

fn dataset(name: &str) -> EntityInfo {
    EntityInfo::Dataset(DatasetInfo {
        name: name.to_string(),
        id: 7,
        link_type: LinkKind::Hard,
        shape: vec![2, 3],
        layout_info: DatasetLayoutInfo::Contiguous {},
    })
}

fn sample_file() -> FileInfo {
    FileInfo {
        name: "sample.nxs".to_string(),
        size: 1024,
        entities: vec![EntityInfo::Group(GroupInfo {
            name: "detector".to_string(),
            id: 1,
            link_kind: LinkKind::Soft,
            entities: vec![dataset("counts"), dataset("timestamps")],
        })],
    }
}

#[test]
fn resolving_a_row_path_finds_the_entity_behind_it() {
    // The round trip: flatten the file's entities, then resolve each row's
    // path; the entity found carries the label that produced the row.
    let file = sample_file();
    let state = TreeState::new(file.to_tree_items());
    for row in state.visible_rows() {
        let entity = file.entity(row.path.clone()).unwrap();
        let name = match &entity {
            EntityInfo::Group(g) => g.name.clone(),
            EntityInfo::Dataset(d) => d.name.clone(),
        };
        assert_eq!(vec![name], row.contents);
    }
}

#[test]
fn resolving_nested_dataset() {
    let file = sample_file();
    match file.entity(vec![0, 1]).unwrap() {
        EntityInfo::Dataset(d) => {
            assert_eq!(d.name, "timestamps");
            assert_eq!(d.shape, vec![2, 3]);
            assert_eq!(d.link_type, LinkKind::Hard);
        }
        EntityInfo::Group(_) => panic!("expected a dataset"),
    }
}

#[test]
fn empty_path_is_not_found() {
    assert_eq!(sample_file().entity(vec![]).unwrap_err(), ResolveError::NotFound);
}

#[test]
fn out_of_range_index_is_not_found() {
    let file = sample_file();
    assert_eq!(file.entity(vec![3]).unwrap_err(), ResolveError::NotFound);
    assert_eq!(file.entity(vec![0, 9]).unwrap_err(), ResolveError::NotFound);
}

#[test]
fn descending_into_a_dataset_is_an_invalid_descent() {
    let file = sample_file();
    assert_eq!(
        file.entity(vec![0, 0, 0]).unwrap_err(),
        ResolveError::InvalidDescent
    );
}

#[test]
fn tree_items_mirror_the_entities() {
    let file = sample_file();
    let items = file.to_tree_items();
    assert_eq!(items.len(), 1);
    assert_eq!(items[0].contents, vec!["detector"]);
    assert_eq!(items[0].color, RowColor::Group);
    assert!(items[0].expanded);
    assert_eq!(items[0].children.len(), 2);
    assert_eq!(items[0].children[0].contents, vec!["counts"]);
    assert_eq!(items[0].children[0].color, RowColor::Dataset);
    assert!(items[0].children[0].children.is_empty());
}

#[test]
fn link_kinds_display_their_names() {
    assert_eq!(LinkKind::Hard.to_string(), "Hard");
    assert_eq!(LinkKind::Soft.to_string(), "Soft");
    assert_eq!(LinkKind::External.to_string(), "External");
}

#[test]
fn layout_kinds_display_their_names() {
    assert_eq!(DatasetLayoutInfo::Compact {}.kind_name(), "Compact");
    assert_eq!(DatasetLayoutInfo::Contiguous {}.kind_name(), "Contiguous");
    assert_eq!(
        DatasetLayoutInfo::Chunked { chunk_shape: vec![4], filters: vec!["gzip".to_string()] }
            .kind_name(),
        "Chunked"
    );
    assert_eq!(DatasetLayoutInfo::Virtial {}.kind_name(), "Virtual");
}
