use typst_memtables::grid_cells::{CellInfo, GroupId};
use typst_memtables::table::{
    build_table, should_group_rows, table_cell_id, CellRef, CellTag, HeaderRegion,
    RowGroupTag, TableCtx, TableId, TableMeta, TablePlan, TagId,
};
use typst_memtables::table_strokes::{Line, LinePosition, SideStroke, Sides, StrokeMeta};
use typst_memtables::tag::{TableCellKind, TableHeaderScope};

fn meta(headers: Vec<HeaderRegion>) -> TableMeta {
    TableMeta {
        has_gutter: false,
        headers,
        footer: None,
        strokes: StrokeMeta {
            effective_cols: 2,
            cell_strokes: vec![None; 4],
            hlines: vec![],
            vlines: vec![],
        },
    }
}

fn info(x: u32, y: u32) -> CellInfo {
    CellInfo { x, y, rowspan: 1, colspan: 1, kind: None }
}

fn two_by_two(headers: Vec<HeaderRegion>) -> TableCtx {
    let mut ctx = TableCtx::new(GroupId(100), TableId(0), meta(headers), None, 2, 2);
    let mut n = 0;
    for y in 0..2 {
        for x in 0..2 {
            ctx.insert(&info(x, y), TagId(n), GroupId(n));
            n += 1;
        }
    }
    ctx
}

#[test]
fn header_row_becomes_thead_and_data_cells_refer_to_it() {
    let mut ctx = two_by_two(vec![HeaderRegion { start: 0, end: 1, level: 1 }]);
    let TablePlan::Rows(rows) = build_table(&mut ctx) else {
        panic!("complete table");
    };
    assert_eq!(rows.len(), 2);
    assert_eq!(rows[0].group, Some(RowGroupTag::THead));
    assert_eq!(rows[1].group, Some(RowGroupTag::TBody));
    for x in 0..2u32 {
        let th = &rows[0].cells[x as usize];
        assert_eq!(th.kind, CellTag::Th(TableHeaderScope::Column, CellRef { table: 0, x, y: 0 }));
        assert!(th.headers.is_empty());
        let td = &rows[1].cells[x as usize];
        assert_eq!(td.kind, CellTag::Td);
        assert_eq!(td.headers, vec![CellRef { table: 0, x, y: 0 }]);
        assert_eq!((td.x, td.y, td.rowspan, td.colspan), (x, 1, None, None));
    }
}

#[test]
fn tables_without_headers_get_no_row_groups() {
    let mut ctx = two_by_two(vec![]);
    let TablePlan::Rows(rows) = build_table(&mut ctx) else {
        panic!("complete table");
    };
    assert!(rows.iter().all(|r| r.group.is_none()));
    assert!(rows.iter().flat_map(|r| r.cells.iter()).all(|c| c.kind == CellTag::Td));
}

#[test]
fn incomplete_tables_are_flat() {
    let mut ctx = TableCtx::new(GroupId(100), TableId(0), meta(vec![]), None, 2, 2);
    ctx.insert(&info(1, 0), TagId(1), GroupId(7));
    ctx.insert(&info(0, 1), TagId(2), GroupId(8));
    match build_table(&mut ctx) {
        TablePlan::Flat(ids) => assert_eq!(ids, vec![GroupId(7), GroupId(8)]),
        TablePlan::Rows(_) => panic!("incomplete table"),
    }
}

#[test]
fn header_cell_ids_count_tables_from_one() {
    assert_eq!(table_cell_id(CellRef { table: 0, x: 3, y: 12 }), "1x3y12");
    assert_eq!(table_cell_id(CellRef { table: 41, x: 0, y: 0 }), "42x0y0");
}

#[test]
fn rows_group_by_kind() {
    let h = TableCellKind::Header(1, TableHeaderScope::Column);
    let h2 = TableCellKind::Header(2, TableHeaderScope::Row);
    assert!(should_group_rows(h, h2));
    assert!(should_group_rows(TableCellKind::Footer, TableCellKind::Footer));
    assert!(should_group_rows(TableCellKind::Data, TableCellKind::Data));
    assert!(!should_group_rows(h, TableCellKind::Data));
    assert!(!should_group_rows(TableCellKind::Footer, TableCellKind::Data));
}

#[test]
fn freed_table_keeps_summary_and_border() {
    let mut ctx = TableCtx::new(
        GroupId(1),
        TableId(3),
        meta(vec![]),
        Some("totals".to_string()),
        2,
        2,
    );
    ctx.free_cells();
    let tag = ctx.build_tag();
    assert_eq!(tag.summary.as_deref(), Some("totals"));
    assert_eq!(tag.border, None);
}

fn stroked(id: u32) -> Option<Sides<SideStroke>> {
    let side = SideStroke { stroke: Some(id), overridden: false };
    Some(Sides { left: side, top: side, right: side, bottom: side })
}

fn stroked_table(patterns: Vec<Option<Sides<SideStroke>>>) -> TableCtx {
    let mut m = meta(vec![]);
    m.strokes.cell_strokes = patterns;
    let mut ctx = TableCtx::new(GroupId(100), TableId(0), m, None, 2, 2);
    let mut n = 0;
    for y in 0..2 {
        for x in 0..2 {
            ctx.insert(&info(x, y), TagId(n), GroupId(n));
            n += 1;
        }
    }
    ctx
}

#[test]
fn uniform_cell_strokes_become_the_table_border() {
    let mut ctx = stroked_table(vec![stroked(3); 4]);
    build_table(&mut ctx);
    assert_eq!(ctx.build_tag().border, Some((3, true)));
}

#[test]
fn most_used_stroke_is_inherited_but_not_uniform() {
    let mut ctx = stroked_table(vec![stroked(3), stroked(3), stroked(3), stroked(4)]);
    let TablePlan::Rows(rows) = build_table(&mut ctx) else {
        panic!("complete table");
    };
    assert_eq!(ctx.build_tag().border, Some((3, false)));
    // The overlapping sides next to the odd cell take its stroke.
    assert_eq!(rows[1].cells[0].strokes.right.stroke, Some(4));
    assert_eq!(rows[0].cells[1].strokes.bottom.stroke, Some(4));
    assert_eq!(rows[0].cells[0].strokes.right.stroke, Some(3));
}

#[test]
fn incomplete_tables_ignore_their_lines() {
    let mut m = meta(vec![]);
    let line = Line { index: 9, start: 0, end: None, position: LinePosition::After, stroke: Some(1) };
    m.strokes.hlines = vec![vec![line]];
    let mut ctx = TableCtx::new(GroupId(100), TableId(0), m, None, 2, 2);
    ctx.insert(&info(0, 0), TagId(1), GroupId(7));
    match build_table(&mut ctx) {
        TablePlan::Flat(ids) => assert_eq!(ids, vec![GroupId(7)]),
        TablePlan::Rows(_) => panic!("incomplete table"),
    }
    assert_eq!(ctx.build_tag().border, None);
}
