use typst_memtables::cell_tags::{
    cell_end_tag, cell_tag_meta, cell_tag_placement, generate_cell_tags, CellSource,
    TagPlacement,
};
use typst_memtables::tag::{
    CellTagKind, Location, Smart, TableCellKind, TableHeaderScope, Tag, TagElem, TagFlags,
};

#[test]
fn table_cells_get_table_metadata() {
    let source = CellSource::Table {
        cell_x: 3,
        cell_y: 70_000,
        kind: Smart::Custom(TableCellKind::Header(300, TableHeaderScope::Row)),
    };
    let meta = cell_tag_meta(Some(source), 2, 1, false).expect("tagged");
    assert_eq!((meta.x, meta.y, meta.colspan, meta.rowspan), (3, 70_000, 2, 1));
    assert_eq!(meta.kind, CellTagKind::TableHeader { level: 255, scope: 2 });
    assert!(meta.is_table());
}

#[test]
fn grid_cells_and_repeats() {
    let grid = CellSource::Grid { cell_x: 100_000, cell_y: 1 };
    let meta = cell_tag_meta(Some(grid), 1, 70_000, false).expect("tagged");
    assert_eq!((meta.x, meta.rowspan), (u16::MAX, u16::MAX));
    assert_eq!(meta.kind, CellTagKind::GridCell);
    assert!(!meta.is_table());
    let repeated = cell_tag_meta(Some(grid), 1, 1, true).expect("tagged");
    assert_eq!(repeated.kind, CellTagKind::Repeated { in_grid: true });
    assert!(!repeated.is_table());
    assert!(cell_tag_meta(None, 1, 1, false).is_none());
}

#[test]
fn repeated_table_cells_stay_table_cells() {
    let source = CellSource::Table { cell_x: 0, cell_y: 0, kind: Smart::Auto };
    let meta = cell_tag_meta(Some(source), 1, 1, true).expect("tagged");
    assert_eq!(meta.kind, CellTagKind::Repeated { in_grid: false });
    assert!(meta.is_table());
    assert_eq!(meta.to_table_cell_kind(), Smart::Auto);
}

#[test]
fn cell_tags_share_location_and_flags() {
    let meta = cell_tag_meta(Some(CellSource::Grid { cell_x: 0, cell_y: 0 }), 1, 1, false)
        .expect("tagged");
    let (loc, key, start): (Location, u128, Tag<()>) =
        generate_cell_tags(meta, 99, Location(5));
    assert_eq!((loc, key), (Location(5), 99));
    assert_eq!(start.location(), Location(5));
    assert!(matches!(start, Tag::CellStart(m, Location(5), f) if m == meta && f.introspectable && f.tagged));
    let end: Tag<()> = cell_end_tag(loc, key);
    assert!(matches!(end, Tag::End(Location(5), 99, TagFlags { introspectable: true, tagged: true })));
}

#[test]
fn tag_placement_depends_on_frames() {
    assert_eq!(cell_tag_placement(false, 3, true), TagPlacement::Untouched);
    assert_eq!(cell_tag_placement(true, 0, false), TagPlacement::Untouched);
    assert_eq!(cell_tag_placement(true, 1, true), TagPlacement::WrapInGroup);
    assert_eq!(cell_tag_placement(true, 1, false), TagPlacement::AroundItems);
    assert_eq!(cell_tag_placement(true, 2, true), TagPlacement::StartOfFirst);
}

#[test]
fn table_kind_round_trips_through_the_compact_tag() {
    let kinds = [
        Smart::Auto,
        Smart::Custom(TableCellKind::Data),
        Smart::Custom(TableCellKind::Footer),
        Smart::Custom(TableCellKind::Header(2, TableHeaderScope::Column)),
        Smart::Custom(TableCellKind::Header(1, TableHeaderScope::Both)),
    ];
    let expected = [
        Smart::Auto,
        Smart::Auto,
        Smart::Custom(TableCellKind::Footer),
        Smart::Custom(TableCellKind::Header(2, TableHeaderScope::Column)),
        Smart::Custom(TableCellKind::Header(1, TableHeaderScope::Both)),
    ];
    for (kind, want) in kinds.into_iter().zip(expected) {
        let source = CellSource::Table { cell_x: 0, cell_y: 0, kind };
        let meta = cell_tag_meta(Some(source), 1, 1, false).expect("tagged");
        assert_eq!(meta.to_table_cell_kind(), want);
    }
}

#[test]
fn packed_tag_elements_skip_preparation_and_keep_their_tag() {
    let flags = TagFlags { introspectable: false, tagged: false };
    assert!(!flags.any());
    let elem: TagElem<()> = TagElem::packed(Tag::End(Location(1), 2, flags));
    assert!(matches!(elem.tag(), Tag::End(Location(1), 2, _)));
    assert_eq!(elem.tag().location(), Location(1));
}
