use typst_memtables::grid_cells::{
    build_grid, cell_group_ids, has_missing, CellInfo, CtxCell, GridCells, GridCtx,
    GridEntry, GroupId,
};

fn cell(data: u8, x: u32, y: u32, colspan: u32, rowspan: u32, id: u32) -> CtxCell<u8> {
    CtxCell { data, x, y, rowspan, colspan, id: GroupId(id) }
}

fn three_by_two() -> GridCells<u8> {
    let mut cells: GridCells<u8> = GridCells::new(3, 2);
    cells.insert(cell(7, 0, 0, 2, 2, 1));
    cells.insert(cell(8, 2, 0, 1, 1, 2));
    cells.insert(cell(9, 2, 1, 1, 1, 3));
    cells
}

#[test]
fn new_map_has_only_missing_positions() {
    let cells: GridCells<u8> = GridCells::new(3, 2);
    assert_eq!(cells.width(), 3);
    assert_eq!(cells.height(), 2);
    assert!(!cells.is_empty());
    assert!(has_missing(&cells));
    assert!(cells.iter().iter().all(|e| e.is_missing()));
    assert!(cells.resolve_at(1, 1).is_none());
}

#[test]
fn spanned_positions_resolve_to_their_parent() {
    let cells = three_by_two();
    assert!(!has_missing(&cells));
    for (x, y) in [(0, 0), (1, 0), (0, 1), (1, 1)] {
        let c = cells.resolve_at(x, y).expect("covered");
        assert_eq!((c.data, c.x, c.y, c.id), (7, 0, 0, GroupId(1)));
    }
    assert_eq!(cells.resolve_at(2, 1).map(|c| c.data), Some(9));
    assert!(matches!(cells.iter()[1], GridEntry::Spanned(0)));
    let entry = &cells.iter()[4];
    assert_eq!(cells.resolve(entry).map(|c| c.id), Some(GroupId(1)));
}

#[test]
fn rows_split_the_entries_by_width() {
    let cells = three_by_two();
    let rows = cells.rows();
    assert_eq!(rows.len(), 2);
    assert!(rows.iter().all(|r| r.len() == 3));
    assert!(rows[1][2].as_cell().is_some());
    assert!(rows[1][0].as_cell().is_none());
}

#[test]
fn cell_mut_changes_the_parent_cell() {
    let mut cells = three_by_two();
    if let Some(c) = cells.cell_mut(1, 1) {
        c.data = 42;
    }
    assert_eq!(cells.resolve_at(0, 0).map(|c| c.data), Some(42));
    assert_eq!(cells.resolve_at(2, 0).map(|c| c.data), Some(8));
}

#[test]
fn group_ids_come_in_row_major_order() {
    let cells = three_by_two();
    assert_eq!(cell_group_ids(&cells), vec![GroupId(1), GroupId(2), GroupId(3)]);
}

#[test]
fn clear_leaves_an_empty_map() {
    let mut cells = three_by_two();
    cells.clear();
    assert!(cells.is_empty());
    assert_eq!(cells.width(), 0);
}

#[test]
fn invalid_group_id_is_the_maximum() {
    assert_eq!(GroupId::invalid(), GroupId(u32::MAX));
}

#[test]
fn build_grid_hangs_each_cell_under_the_grid() {
    let mut ctx = GridCtx::new(GroupId(10), 2, 1);
    ctx.insert(&CellInfo { x: 1, y: 0, rowspan: 0, colspan: 0, kind: None }, GroupId(12));
    ctx.insert(&CellInfo { x: 0, y: 0, rowspan: 1, colspan: 1, kind: None }, GroupId(11));
    assert_eq!(
        build_grid(&ctx),
        vec![(GroupId(10), GroupId(11)), (GroupId(10), GroupId(12))]
    );
}
