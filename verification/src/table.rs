//! Table semantics for tagged PDF export: row kinds, header references,
//! row groups and border strokes of table cells.

use vstd::prelude::*;

use crate::grid_cells::{
    CellInfo, CtxCell, GridCells, GridEntry, GroupId, cell_group_ids, cell_ids, has_missing,
    lemma_position_in_range, resolve_entry, span_or_one, span_or_one_exec,
};
use crate::tag::{Smart, TableCellKind, TableHeaderScope};
use crate::table_strokes::{
    LineAxis, PrioritizedStroke, Sides, StrokeGrid, StrokeMeta, all_same, border_choice,
    cells_at_home, count_of,
    initial_strokes, lines_in_range, place_groups, stroke_keys, sweep_cols, sweep_rows,
    table_stroke_result,
};
use crate::text::{decimal, push_decimal};

verus! {

/// The index of a table among the tables of a document.
#[derive(Clone, Copy, Debug, PartialEq, Eq, Structural)]
pub struct TableId(pub u32);

impl TableId {
    /// The table's index.
    pub fn get(&self) -> (n: u32)
        ensures
            n == self.0,
    {
        self.0
    }
}

/// The identifier of a tag in the tag tree.
#[derive(Clone, Copy, Debug, PartialEq, Eq, Structural)]
pub struct TagId(pub u32);

/// A header region of a table: the effective rows `start..end`, at a level.
#[derive(Clone, Copy, Debug, PartialEq, Eq, Structural)]
pub struct HeaderRegion {
    pub start: usize,
    pub end: usize,
    /// The header's level, at least one.
    pub level: u32,
}

/// The footer region of a table: the effective rows `start..end`.
#[derive(Clone, Copy, Debug, PartialEq, Eq, Structural)]
pub struct FooterRegion {
    pub start: usize,
    pub end: usize,
}

/// What the tag tree needs to know of a table's layout.
///
/// Effective positions count gutter tracks: with gutters, every other
/// track is a gutter.
pub struct TableMeta {
    /// Whether the table has gutter tracks.
    pub has_gutter: bool,
    /// The header regions, in order.
    pub headers: Vec<HeaderRegion>,
    /// The footer region, if any.
    pub footer: Option<FooterRegion>,
    /// The strokes of cells and explicit lines.
    pub strokes: StrokeMeta,
}

/// The effective position of a conventional position.
pub open spec fn to_effective_spec(has_gutter: bool, i: int) -> int {
    if has_gutter { 2 * i } else { i }
}

/// The conventional position of an effective position.
pub open spec fn from_effective_spec(has_gutter: bool, i: int) -> u32 {
    if has_gutter { (i / 2) as u32 } else { i as u32 }
}

impl TableMeta {
    /// Convert from conventional positions to effective positions.
    pub fn to_effective(&self, i: u32) -> (r: usize)
        requires
            self.has_gutter ==> 2 * i <= usize::MAX,
        ensures
            r == to_effective_spec(self.has_gutter, i as int),
    {
        if self.has_gutter {
            2 * (i as usize)
        } else {
            i as usize
        }
    }

    /// Convert from effective positions to conventional positions,
    /// truncated to 32 bits.
    pub fn from_effective(&self, i: usize) -> (r: u32)
        ensures
            r == from_effective_spec(self.has_gutter, i as int),
    {
        if self.has_gutter {
            (i / 2) as u32
        } else {
            i as u32
        }
    }
}

/// The first header, from index `i` on, whose region ends after effective
/// row `gy`; the number of headers if there is none.
pub open spec fn first_open_from(headers: Seq<HeaderRegion>, gy: int, i: int) -> int
    decreases headers.len() - i,
{
    if i >= headers.len() || i < 0 {
        headers.len() as int
    } else if headers[i].end > gy {
        i
    } else {
        first_open_from(headers, gy, i + 1)
    }
}

/// The kind that row `y` of a table has before any cell overrides it: a
/// header row at the level of the first header region that has not ended
/// yet, if that region contains the row; else a footer row if the footer
/// contains it; else a data row.
pub open spec fn default_row_kind(
    has_gutter: bool,
    headers: Seq<HeaderRegion>,
    footer: Option<FooterRegion>,
    y: int,
) -> TableCellKind {
    let gy = to_effective_spec(has_gutter, y);
    let i = first_open_from(headers, gy, 0);
    if i < headers.len() && headers[i].start <= gy && gy < headers[i].end {
        TableCellKind::Header(headers[i].level, TableHeaderScope::Column)
    } else if footer matches Some(f) && f.start <= gy && gy < f.end {
        TableCellKind::Footer
    } else {
        TableCellKind::Data
    }
}

proof fn lemma_first_open_skip(headers: Seq<HeaderRegion>, gy: int, i: int, hi: int)
    requires
        0 <= i <= hi <= headers.len(),
        forall|m: int| 0 <= m < hi ==> #[trigger] headers[m].end <= gy,
        hi == headers.len() || headers[hi].end > gy,
    ensures
        first_open_from(headers, gy, i) == hi,
    decreases hi - i,
{
    if i < hi {
        lemma_first_open_skip(headers, gy, i + 1, hi);
    }
}

/// A reference to a header cell of a table: the table and the cell's
/// position.
#[derive(Clone, Copy, Debug, PartialEq, Eq, Structural)]
pub struct CellRef {
    pub table: u32,
    pub x: u32,
    pub y: u32,
}

/// The data attached to each table cell.
pub struct TableCellData {
    /// The tag of the cell.
    pub tag: TagId,
    /// The cell's kind.
    pub kind: TableCellKind,
    /// The header cells that this cell refers to.
    pub headers: Vec<CellRef>,
}

/// The kind of a table cell: its own custom kind, else the kind of its row.
pub open spec fn cell_kind_for(info_kind: Option<Smart<TableCellKind>>, row_kind: TableCellKind) -> TableCellKind {
    match info_kind {
        Some(Smart::Custom(k)) => k,
        _ => row_kind,
    }
}

/// Whether two rows of the given kinds belong to the same row group.
pub open spec fn same_row_group(a: TableCellKind, b: TableCellKind) -> bool {
    ||| (a is Header && b is Header)
    ||| (a is Footer && b is Footer)
    ||| (a is Data && b is Data)
}

/// Whether two rows of the given kinds belong to the same row group: both
/// are header rows, both footer rows, or both data rows.
pub fn should_group_rows(a: TableCellKind, b: TableCellKind) -> (r: bool)
    ensures
        r == same_row_group(a, b),
{
    match (a, b) {
        (TableCellKind::Header(..), TableCellKind::Header(..)) => true,
        (TableCellKind::Footer, TableCellKind::Footer) => true,
        (TableCellKind::Data, TableCellKind::Data) => true,
        (_, _) => false,
    }
}

/// The tag of a row group.
#[derive(Clone, Copy, Debug, PartialEq, Eq, Structural)]
pub enum RowGroupTag {
    THead,
    TBody,
    TFoot,
}

/// The tag of the row group that starts at a row of the given kind.
pub open spec fn row_group_tag(kind: TableCellKind, is_first: bool) -> RowGroupTag {
    match kind {
        TableCellKind::Header(..) => if is_first {
            RowGroupTag::THead
        } else {
            RowGroupTag::TBody
        },
        TableCellKind::Footer => RowGroupTag::TFoot,
        TableCellKind::Data => RowGroupTag::TBody,
    }
}

/// Where row groups start: with row groups enabled, at the first row and at
/// every row that does not belong with the row before it, tagged by the
/// row's kind (only a leading header group is a `THead`).
pub open spec fn row_group_start(kinds: Seq<TableCellKind>, enabled: bool, y: int) -> Option<RowGroupTag> {
    if !enabled {
        None
    } else if y == 0 {
        Some(row_group_tag(kinds[0], true))
    } else if !same_row_group(kinds[y - 1], kinds[y]) {
        Some(row_group_tag(kinds[y], false))
    } else {
        None
    }
}

/// Row groups are tagged by the kind of the row they start at: a group that
/// starts at a footer row is a `TFoot`, one that starts at a data row a
/// `TBody`, and one that starts at a header row a `THead` if it is the
/// table's first group, else a `TBody`. With row groups, the first row
/// starts one, and a later row starts one exactly when it is not of the same
/// kind (header, footer or data) as the row before it; without row groups
/// no row starts one.
pub proof fn lemma_row_group_tags(kinds: Seq<TableCellKind>, enabled: bool, y: int)
    requires
        0 <= y < kinds.len(),
    ensures
        !enabled ==> row_group_start(kinds, enabled, y) is None,
        enabled && y > 0 ==> (row_group_start(kinds, enabled, y) is None <==> ((kinds[y - 1] is Header
            && kinds[y] is Header) || (kinds[y - 1] is Footer && kinds[y] is Footer) || (kinds[y
            - 1] is Data && kinds[y] is Data))),
        enabled && y == 0 ==> row_group_start(kinds, enabled, y) is Some,
        enabled && (y == 0 || !same_row_group(kinds[y - 1], kinds[y])) ==> match kinds[y] {
            TableCellKind::Footer => row_group_start(kinds, enabled, y) == Some(RowGroupTag::TFoot),
            TableCellKind::Data => row_group_start(kinds, enabled, y) == Some(RowGroupTag::TBody),
            TableCellKind::Header(..) => row_group_start(kinds, enabled, y) == Some(
                if y == 0 {
                    RowGroupTag::THead
                } else {
                    RowGroupTag::TBody
                },
            ),
        },
{
}

/// For each of `rows` rows, the row group that starts there, if any.
pub fn row_group_starts(kinds: &Vec<TableCellKind>, enabled: bool, rows: usize) -> (starts: Vec<
    Option<RowGroupTag>,
>)
    requires
        kinds@.len() > 0,
        enabled ==> rows <= kinds@.len(),
    ensures
        starts@.len() == rows,
        forall|y: int| 0 <= y < rows ==> #[trigger] starts@[y] == row_group_start(kinds@, enabled, y),
{
    let mut chunk_kind = kinds[0];
    let mut started = false;
    let mut starts: Vec<Option<RowGroupTag>> = Vec::new();
    let mut y: usize = 0;
    while y < rows
        invariant
            kinds@.len() > 0,
            enabled ==> rows <= kinds@.len(),
            y <= rows,
            starts@.len() == y,
            enabled ==> (started <==> y > 0),
            enabled && y > 0 ==> same_row_group(chunk_kind, kinds@[y - 1]),
            forall|r: int| 0 <= r < y ==> #[trigger] starts@[r] == row_group_start(kinds@, enabled, r),
        decreases rows - y,
    {
        if enabled {
            let row_kind = kinds[y];
            let is_first = !started;
            if is_first || !should_group_rows(chunk_kind, row_kind) {
                let tag = match row_kind {
                    TableCellKind::Header(..) => if is_first {
                        RowGroupTag::THead
                    } else {
                        RowGroupTag::TBody
                    },
                    TableCellKind::Footer => RowGroupTag::TFoot,
                    TableCellKind::Data => RowGroupTag::TBody,
                };
                chunk_kind = row_kind;
                started = true;
                starts.push(Some(tag));
            } else {
                starts.push(None);
            }
        } else {
            starts.push(None);
        }
        y = y + 1;
    }
    starts
}

/// The kind of the cell that an entry resolves to.
pub open spec fn resolved_kind(entries: Seq<GridEntry<TableCellData>>, e: GridEntry<TableCellData>) -> TableCellKind {
    resolve_entry(entries, e).unwrap().data.kind
}

/// Whether a cell kind keeps its row uniform: a header cell must refer to
/// its column, and every cell must have the kind of the row's first cell.
pub open spec fn keeps_row_uniform(kind: TableCellKind, first: TableCellKind) -> bool {
    &&& !(kind matches TableCellKind::Header(_, scope) && scope != TableHeaderScope::Column)
    &&& kind == first
}

/// The direction in which header cells are resolved.
#[derive(Clone, Copy, Debug, PartialEq, Eq, Structural)]
pub enum HeaderDirection {
    Column,
    Row,
}

/// Whether a header cell of the given scope refers to cells in the given
/// direction.
pub open spec fn refers_to(dir: HeaderDirection, scope: TableHeaderScope) -> bool {
    match dir {
        HeaderDirection::Column => scope is Both || scope is Column,
        HeaderDirection::Row => scope is Both || scope is Row,
    }
}

fn refers_to_exec(dir: HeaderDirection, scope: TableHeaderScope) -> (b: bool)
    ensures
        b == refers_to(dir, scope),
{
    match dir {
        HeaderDirection::Column => match scope {
            TableHeaderScope::Row => false,
            _ => true,
        },
        HeaderDirection::Row => match scope {
            TableHeaderScope::Column => false,
            _ => true,
        },
    }
}

/// The header cells that are currently in effect at one level.
pub struct HeaderCells {
    /// The rows of the header region that these cells belong to, if any.
    pub region_range: Option<(u32, u32)>,
    /// The header level, at least one.
    pub level: u32,
    /// The header cells.
    pub cell_ids: Vec<CellRef>,
}

/// The abstract value of a [`HeaderCells`].
pub struct HeaderEntry {
    pub region: Option<(u32, u32)>,
    pub level: u32,
    pub ids: Seq<CellRef>,
}

impl View for HeaderCells {
    type V = HeaderEntry;

    open spec fn view(&self) -> HeaderEntry {
        HeaderEntry { region: self.region_range, level: self.level, ids: self.cell_ids@ }
    }
}

/// The abstract value of a stack of header cells.
pub open spec fn stack_view(s: Seq<HeaderCells>) -> Seq<HeaderEntry> {
    s.map_values(|h: HeaderCells| h@)
}

/// How many entries stay on the stack when all entries with a level higher
/// than `level` are removed from its top.
pub open spec fn kept_below(stack: Seq<HeaderEntry>, level: u32) -> nat
    decreases stack.len(),
{
    if stack.len() > 0 && stack.last().level > level {
        kept_below(stack.drop_last(), level)
    } else {
        stack.len()
    }
}

/// The stack after a header cell at the given level is met: higher levels
/// are removed; then if the top has the same level, the cell joins it when
/// the top's header region contains row `y`, and replaces it otherwise; else
/// the cell is pushed as a new level.
pub open spec fn header_step(
    stack: Seq<HeaderEntry>,
    region: Option<(u32, u32)>,
    level: u32,
    id: CellRef,
    y: u32,
) -> Seq<HeaderEntry> {
    let n = kept_below(stack, level) as int;
    let s = stack.take(n);
    if n > 0 && s[n - 1].level == level {
        let prev = s[n - 1];
        if prev.region matches Some(r) && r.0 <= y && y < r.1 {
            s.update(n - 1, HeaderEntry { region: prev.region, level, ids: prev.ids.push(id) })
        } else {
            s.update(n - 1, HeaderEntry { region, level, ids: seq![id] })
        }
    } else {
        s.push(HeaderEntry { region, level, ids: seq![id] })
    }
}

/// The entry just below the top of a stack of the given length.
pub open spec fn below_top(len: int) -> Option<usize> {
    if len >= 2 { Some((len - 2) as usize) } else { None }
}

/// The top entry of a stack of the given length.
pub open spec fn top(len: int) -> Option<usize> {
    if len >= 1 { Some((len - 1) as usize) } else { None }
}

/// Whether a cell is a header cell that refers to cells in direction `dir`.
pub open spec fn is_header_for(cell: CtxCell<TableCellData>, dir: HeaderDirection) -> bool {
    cell.data.kind matches TableCellKind::Header(_, scope) && refers_to(dir, scope)
}

/// The stack of header cells after `cell` is met, and the index of the entry
/// whose cells head `cell`.
pub open spec fn header_resolution(
    stack: Seq<HeaderEntry>,
    region: Option<(u32, u32)>,
    dir: HeaderDirection,
    cell: CtxCell<TableCellData>,
    table: TableId,
) -> (Seq<HeaderEntry>, Option<usize>) {
    match cell.data.kind {
        TableCellKind::Header(level, scope) => if refers_to(dir, scope) {
            let s = header_step(
                stack,
                region,
                level,
                CellRef { table: table.0, x: cell.x, y: cell.y },
                cell.y,
            );
            (s, below_top(s.len() as int))
        } else {
            (stack, top(stack.len() as int))
        },
        _ => (stack, top(stack.len() as int)),
    }
}

/// Update the stack of header cells for `cell`, and return the index of the
/// entry whose cells are the headers of `cell`, if any: the top of the stack
/// for a cell that is not a header in direction `dir`, else the entry just
/// below the cell's own.
pub fn resolve_cell_header_ids(
    table_id: TableId,
    header_stack: &mut Vec<HeaderCells>,
    region_range: Option<(u32, u32)>,
    dir: HeaderDirection,
    cell: &CtxCell<TableCellData>,
) -> (r: Option<usize>)
    ensures
        stack_view(final(header_stack)@) == header_resolution(
            stack_view(old(header_stack)@),
            region_range,
            dir,
            *cell,
            table_id,
        ).0,
        r == header_resolution(stack_view(old(header_stack)@), region_range, dir, *cell, table_id).1,
{
    let ghost s0 = stack_view(header_stack@);
    let (level, scope) = match cell.data.kind {
        TableCellKind::Header(level, scope) => (level, scope),
        _ => {
            let n = header_stack.len();
            return if n >= 1 {
                Some(n - 1)
            } else {
                None
            };
        },
    };
    if !refers_to_exec(dir, scope) {
        let n = header_stack.len();
        return if n >= 1 {
            Some(n - 1)
        } else {
            None
        };
    }
    // Remove all headers with a higher level.

    while header_stack.len() > 0 && header_stack[header_stack.len() - 1].level > level
        invariant
            kept_below(stack_view(header_stack@), level) == kept_below(s0, level),
            stack_view(header_stack@) == s0.take(stack_view(header_stack@).len() as int),
            header_stack@.len() <= s0.len(),
        decreases header_stack@.len(),
    {
        let ghost before = stack_view(header_stack@);
        header_stack.pop();
        proof {
            assert(stack_view(header_stack@) =~= before.drop_last());
            assert(before.drop_last() =~= s0.take(stack_view(header_stack@).len() as int));
        }
    }
    let ghost n = header_stack@.len() as int;
    proof {
        assert(kept_below(stack_view(header_stack@), level) == n);
        assert(stack_view(header_stack@) =~= s0.take(n));
    }
    let tag_id = CellRef { table: table_id.get(), x: cell.x, y: cell.y };
    let len = header_stack.len();
    if len > 0 && header_stack[len - 1].level == level {
        let in_region = match header_stack[len - 1].region_range {
            Some(r) => r.0 <= cell.y && cell.y < r.1,
            None => false,
        };
        let mut prev = header_stack.pop().unwrap();
        if in_region {
            prev.cell_ids.push(tag_id);
            header_stack.push(prev);
        } else {
            let mut ids: Vec<CellRef> = Vec::new();
            ids.push(tag_id);
            header_stack.push(HeaderCells { region_range, level, cell_ids: ids });
        }
    } else {
        let mut ids: Vec<CellRef> = Vec::new();
        ids.push(tag_id);
        header_stack.push(HeaderCells { region_range, level, cell_ids: ids });
    }
    proof {
        let s = header_step(s0, region_range, level, tag_id, cell.y);
        assert(stack_view(header_stack@) =~= s);
    }
    let n2 = header_stack.len();
    if n2 >= 2 {
        Some(n2 - 2)
    } else {
        None
    }
}

/// A header cell that meets, on top of the stack, an entry of its own level
/// whose header region holds the cell's row joins that entry: the entry
/// stays, with its region, and gains the cell's reference at its end; the
/// entries below it stay as they are, and the cell is headed by the entry
/// just below.
pub proof fn lemma_header_joins_its_region(
    stack: Seq<HeaderEntry>,
    region: Option<(u32, u32)>,
    dir: HeaderDirection,
    cell: CtxCell<TableCellData>,
    table: TableId,
    level: u32,
    scope: TableHeaderScope,
    r: (u32, u32),
)
    requires
        cell.data.kind == TableCellKind::Header(level, scope),
        refers_to(dir, scope),
        stack.len() > 0,
        stack.last().level == level,
        stack.last().region == Some(r),
        r.0 <= cell.y < r.1,
    ensures
        header_resolution(stack, region, dir, cell, table).0 == stack.drop_last().push(
            HeaderEntry {
                region: Some(r),
                level,
                ids: stack.last().ids.push(CellRef { table: table.0, x: cell.x, y: cell.y }),
            },
        ),
        header_resolution(stack, region, dir, cell, table).1 == below_top(stack.len() as int),
{
    let n = stack.len() as int;
    assert(kept_below(stack, level) == n);
    assert(stack.take(n) =~= stack);
    let joined = HeaderEntry {
        region: Some(r),
        level,
        ids: stack.last().ids.push(CellRef { table: table.0, x: cell.x, y: cell.y }),
    };
    assert(stack.update(n - 1, joined) =~= stack.drop_last().push(joined));
}

/// A header cell that meets, on top of the stack, an entry of its own level
/// whose header region does not hold the cell's row (or that has none)
/// replaces that entry by a new one of the cell's region holding the cell
/// alone, and is headed by the entry just below.
pub proof fn lemma_header_outside_region_starts_anew(
    stack: Seq<HeaderEntry>,
    region: Option<(u32, u32)>,
    dir: HeaderDirection,
    cell: CtxCell<TableCellData>,
    table: TableId,
    level: u32,
    scope: TableHeaderScope,
)
    requires
        cell.data.kind == TableCellKind::Header(level, scope),
        refers_to(dir, scope),
        stack.len() > 0,
        stack.last().level == level,
        !(stack.last().region matches Some(r) && r.0 <= cell.y < r.1),
    ensures
        header_resolution(stack, region, dir, cell, table).0 == stack.drop_last().push(
            HeaderEntry {
                region,
                level,
                ids: seq![CellRef { table: table.0, x: cell.x, y: cell.y }],
            },
        ),
        header_resolution(stack, region, dir, cell, table).1 == below_top(stack.len() as int),
{
    let n = stack.len() as int;
    assert(kept_below(stack, level) == n);
    assert(stack.take(n) =~= stack);
    let fresh = HeaderEntry {
        region,
        level,
        ids: seq![CellRef { table: table.0, x: cell.x, y: cell.y }],
    };
    assert(stack.update(n - 1, fresh) =~= stack.drop_last().push(fresh));
}

/// Entries of a higher level than a header cell's are dropped before the
/// cell is placed: with such entries on top of `base`, whose own top (if
/// any) is not of a higher level, the cell meets the stack as if only
/// `base` were there.
pub proof fn lemma_higher_levels_dropped(
    base: Seq<HeaderEntry>,
    upper: Seq<HeaderEntry>,
    region: Option<(u32, u32)>,
    dir: HeaderDirection,
    cell: CtxCell<TableCellData>,
    table: TableId,
    level: u32,
    scope: TableHeaderScope,
)
    requires
        cell.data.kind == TableCellKind::Header(level, scope),
        refers_to(dir, scope),
        base.len() > 0 ==> base.last().level <= level,
        forall|i: int| 0 <= i < upper.len() ==> #[trigger] upper[i].level > level,
    ensures
        header_resolution(base + upper, region, dir, cell, table) == header_resolution(
            base,
            region,
            dir,
            cell,
            table,
        ),
{
    lemma_kept_below_drops_higher(base, upper, level);
    let n = base.len() as int;
    assert(kept_below(base, level) == n);
    assert((base + upper).take(n) =~= base.take(n));
}

/// Removing entries of a level higher than `level` from the top of
/// `base + upper` leaves `base`.
proof fn lemma_kept_below_drops_higher(base: Seq<HeaderEntry>, upper: Seq<HeaderEntry>, level: u32)
    requires
        base.len() > 0 ==> base.last().level <= level,
        forall|i: int| 0 <= i < upper.len() ==> #[trigger] upper[i].level > level,
    ensures
        kept_below(base + upper, level) == base.len(),
    decreases upper.len(),
{
    if upper.len() == 0 {
        assert(base + upper =~= base);
    } else {
        let shorter = upper.drop_last();
        assert((base + upper).drop_last() =~= base + shorter);
        assert((base + upper).last() == upper[upper.len() - 1]);
        assert forall|i: int| 0 <= i < shorter.len() implies #[trigger] shorter[i].level > level by {
            assert(shorter[i] == upper[i]);
        }
        lemma_kept_below_drops_higher(base, shorter, level);
    }
}

/// A header cell that meets an entry of a lower level on top of the stack
/// (or an empty stack) opens a new level above it, holding the cell alone,
/// and is headed by that lower entry.
pub proof fn lemma_header_opens_level(
    stack: Seq<HeaderEntry>,
    region: Option<(u32, u32)>,
    dir: HeaderDirection,
    cell: CtxCell<TableCellData>,
    table: TableId,
    level: u32,
    scope: TableHeaderScope,
)
    requires
        cell.data.kind == TableCellKind::Header(level, scope),
        refers_to(dir, scope),
        stack.len() > 0 ==> stack.last().level < level,
    ensures
        header_resolution(stack, region, dir, cell, table) == (
            stack.push(
                HeaderEntry {
                    region,
                    level,
                    ids: seq![CellRef { table: table.0, x: cell.x, y: cell.y }],
                },
            ),
            if stack.len() > 0 {
                Some((stack.len() - 1) as usize)
            } else {
                None
            },
        ),
{
    let n = stack.len() as int;
    assert(kept_below(stack, level) == n);
    assert(stack.take(n) =~= stack);
}

/// A cell that is not a header in the direction swept leaves the stack as
/// it is and is headed by the entry on top, if any.
pub proof fn lemma_non_header_headed_by_top(
    stack: Seq<HeaderEntry>,
    region: Option<(u32, u32)>,
    dir: HeaderDirection,
    cell: CtxCell<TableCellData>,
    table: TableId,
)
    requires
        !is_header_for(cell, dir),
    ensures
        header_resolution(stack, region, dir, cell, table) == (
            stack,
            if stack.len() > 0 {
                Some((stack.len() - 1) as usize)
            } else {
                None
            },
        ),
{
}

/// The header stack after `cells` are met in order, starting from `stack`.
pub open spec fn resolutions(
    stack: Seq<HeaderEntry>,
    region: Option<(u32, u32)>,
    dir: HeaderDirection,
    cells: Seq<CtxCell<TableCellData>>,
    table: TableId,
) -> Seq<HeaderEntry>
    decreases cells.len(),
{
    if cells.len() == 0 {
        stack
    } else {
        header_resolution(
            resolutions(stack, region, dir, cells.drop_last(), table),
            region,
            dir,
            cells.last(),
            table,
        ).0
    }
}

/// The references to `cells`, in order.
pub open spec fn refs_to(cells: Seq<CtxCell<TableCellData>>, table: TableId) -> Seq<CellRef> {
    Seq::new(cells.len(), |i: int| CellRef { table: table.0, x: cells[i].x, y: cells[i].y })
}

/// Header cells of one level that lie in one header region, met in order
/// from an empty stack, all stay in effect together: the stack then holds a
/// single entry with the references to all of them, in the order met, and a
/// following data cell is headed by that entry, so by every one of them.
pub proof fn lemma_header_region_rows_accumulate(
    r: (u32, u32),
    dir: HeaderDirection,
    cells: Seq<CtxCell<TableCellData>>,
    table: TableId,
    level: u32,
    scope: TableHeaderScope,
    data_cell: CtxCell<TableCellData>,
    next_region: Option<(u32, u32)>,
)
    requires
        cells.len() > 0,
        refers_to(dir, scope),
        forall|i: int|
            0 <= i < cells.len() ==> #[trigger] cells[i].data.kind == TableCellKind::Header(
                level,
                scope,
            ) && r.0 <= cells[i].y < r.1,
        data_cell.data.kind == TableCellKind::Data,
    ensures
        resolutions(Seq::empty(), Some(r), dir, cells, table) == seq![
            HeaderEntry { region: Some(r), level, ids: refs_to(cells, table) },
        ],
        header_resolution(
            resolutions(Seq::empty(), Some(r), dir, cells, table),
            next_region,
            dir,
            data_cell,
            table,
        ) == (resolutions(Seq::empty(), Some(r), dir, cells, table), Some(0usize)),
    decreases cells.len(),
{
    let last = cells.last();
    assert(last == cells[cells.len() - 1]);
    if cells.len() == 1 {
        let e: Seq<HeaderEntry> = Seq::empty();
        assert(kept_below(e, level) == 0);
        assert(e.take(0) =~= e);
        assert(refs_to(cells, table) =~= seq![CellRef { table: table.0, x: last.x, y: last.y }]);
        assert(resolutions(e, Some(r), dir, cells.drop_last(), table) == e);
        assert(last.data.kind == TableCellKind::Header(level, scope));
        let id = CellRef { table: table.0, x: last.x, y: last.y };
        assert(header_step(e, Some(r), level, id, last.y) =~= seq![
            HeaderEntry { region: Some(r), level, ids: seq![id] },
        ]);
        assert(resolutions(Seq::empty(), Some(r), dir, cells, table) =~= seq![
            HeaderEntry { region: Some(r), level, ids: refs_to(cells, table) },
        ]);
    } else {
        let init = cells.drop_last();
        assert forall|i: int| 0 <= i < init.len() implies #[trigger] init[i].data.kind
            == TableCellKind::Header(level, scope) && r.0 <= init[i].y < r.1 by {
            assert(init[i] == cells[i]);
        }
        lemma_header_region_rows_accumulate(
            r,
            dir,
            init,
            table,
            level,
            scope,
            data_cell,
            next_region,
        );
        let s = resolutions(Seq::empty(), Some(r), dir, init, table);
        lemma_header_joins_its_region(s, Some(r), dir, last, table, level, scope, r);
        assert(refs_to(init, table).push(CellRef { table: table.0, x: last.x, y: last.y })
            =~= refs_to(cells, table));
        assert(s.drop_last().push(
            HeaderEntry { region: Some(r), level, ids: refs_to(cells, table) },
        ) =~= seq![HeaderEntry { region: Some(r), level, ids: refs_to(cells, table) }]);
    }
}

/// `existing` extended by each id of `add` that it does not hold yet, in
/// order.
pub open spec fn merge_ids(existing: Seq<CellRef>, add: Seq<CellRef>) -> Seq<CellRef>
    decreases add.len(),
{
    if add.len() == 0 {
        existing
    } else {
        let e = merge_ids(existing, add.drop_last());
        if e.contains(add.last()) {
            e
        } else {
            e.push(add.last())
        }
    }
}

fn contains_ref(v: &Vec<CellRef>, id: CellRef) -> (b: bool)
    ensures
        b == v@.contains(id),
{
    let mut k: usize = 0;
    while k < v.len()
        invariant
            k <= v@.len(),
            forall|m: int| 0 <= m < k ==> v@[m] != id,
        decreases v@.len() - k,
    {
        if v[k] == id {
            return true;
        }
        k = k + 1;
    }
    false
}

/// Whether `after` is `before` with its header references replaced by
/// `headers`.
pub open spec fn with_headers(
    before: CtxCell<TableCellData>,
    after: CtxCell<TableCellData>,
    headers: Seq<CellRef>,
) -> bool {
    &&& after.x == before.x
    &&& after.y == before.y
    &&& after.rowspan == before.rowspan
    &&& after.colspan == before.colspan
    &&& after.id == before.id
    &&& after.data.tag == before.data.tag
    &&& after.data.kind == before.data.kind
    &&& after.data.headers@ == headers
}

/// The header references that a cell has after header resolution: its own,
/// extended by those of the stack entry that heads it.
pub open spec fn resolved_headers(
    cell: CtxCell<TableCellData>,
    stack: Seq<HeaderEntry>,
    r: Option<usize>,
) -> Seq<CellRef> {
    match r {
        Some(h) => merge_ids(cell.data.headers@, stack[h as int].ids),
        None => cell.data.headers@,
    }
}

/// Resolve the headers of the cell that covers `(x, y)`: update the header
/// stack for it, and add the header cells that head it to its references.
pub fn resolve_cell_headers(
    table_id: TableId,
    cells: &mut GridCells<TableCellData>,
    header_stack: &mut Vec<HeaderCells>,
    region_range: Option<(u32, u32)>,
    dir: HeaderDirection,
    x: u32,
    y: u32,
)
    requires
        old(cells).wf(),
        old(cells).index_of(x as int, y as int) < old(cells).entries_seq().len(),
    ensures
        final(cells).cols() == old(cells).cols(),
        old(cells).resolve_at_spec(x as int, y as int) is None ==> {
            &&& final(cells).entries_seq() == old(cells).entries_seq()
            &&& final(header_stack)@ == old(header_stack)@
        },
        old(cells).resolve_at_spec(x as int, y as int) matches Some(c) ==> {
            let (s, r) = header_resolution(
                stack_view(old(header_stack)@),
                region_range,
                dir,
                c,
                table_id,
            );
            let k = old(cells).owner_index(x as int, y as int);
            &&& stack_view(final(header_stack)@) == s
            &&& final(cells).entries_seq() == old(cells).entries_seq().update(
                k,
                final(cells).entries_seq()[k],
            )
            &&& final(cells).entries_seq()[k] matches GridEntry::Cell(c2) && with_headers(
                c,
                c2,
                resolved_headers(c, s, r),
            )
        },
{
    let cell_opt = cells.cell_mut(x, y);
    match cell_opt {
        None => {},
        Some(cell) => {
            let ghost c0 = *cell;
            let r = resolve_cell_header_ids(table_id, header_stack, region_range, dir, &*cell);
            match r {
                None => {},
                Some(h) => {
                    let ids = &header_stack[h].cell_ids;
                    let mut k: usize = 0;
                    while k < ids.len()
                        invariant
                            k <= ids@.len(),
                            with_headers(c0, *cell, merge_ids(c0.data.headers@, ids@.take(k as int))),
                        decreases ids@.len() - k,
                    {
                        let id = ids[k];
                        proof {
                            assert(ids@.take(k + 1).drop_last() =~= ids@.take(k as int));
                        }
                        if !contains_ref(&cell.data.headers, id) {
                            cell.data.headers.push(id);
                        }
                        k = k + 1;
                    }
                    proof {
                        assert(ids@.take(ids@.len() as int) =~= ids@);
                    }
                },
            }
        },
    }
}

/// A sequence extended: `b` starts with `a`.
pub open spec fn extends(a: Seq<CellRef>, b: Seq<CellRef>) -> bool {
    a.len() <= b.len() && b.subrange(0, a.len() as int) == a
}

proof fn lemma_merge_extends(e: Seq<CellRef>, add: Seq<CellRef>)
    ensures
        extends(e, merge_ids(e, add)),
    decreases add.len(),
{
    if add.len() > 0 {
        lemma_merge_extends(e, add.drop_last());
        let m = merge_ids(e, add.drop_last());
        if !m.contains(add.last()) {
            assert(m.push(add.last()).subrange(0, e.len() as int) =~= m.subrange(0, e.len() as int));
        }
    } else {
        assert(e.subrange(0, e.len() as int) =~= e);
    }
}

/// Whether `b` is `a` with only the header references of cells extended:
/// every entry keeps its kind, spanned entries keep their parent, and every
/// cell keeps its position, spans, group, tag and kind.
#[verifier::opaque]
pub open spec fn same_layout(a: Seq<GridEntry<TableCellData>>, b: Seq<GridEntry<TableCellData>>) -> bool {
    &&& a.len() == b.len()
    &&& forall|k: int|
        0 <= k < a.len() ==> match (#[trigger] a[k], b[k]) {
            (GridEntry::Cell(c), GridEntry::Cell(c2)) => {
                &&& c2.x == c.x
                &&& c2.y == c.y
                &&& c2.rowspan == c.rowspan
                &&& c2.colspan == c.colspan
                &&& c2.id == c.id
                &&& c2.data.tag == c.data.tag
                &&& c2.data.kind == c.data.kind
                &&& extends(c.data.headers@, c2.data.headers@)
            },
            (GridEntry::Spanned(p), GridEntry::Spanned(q)) => p == q,
            (GridEntry::Missing, GridEntry::Missing) => true,
            _ => false,
        }
}

proof fn lemma_same_layout_trans(
    a: Seq<GridEntry<TableCellData>>,
    b: Seq<GridEntry<TableCellData>>,
    c: Seq<GridEntry<TableCellData>>,
)
    requires
        same_layout(a, b),
        same_layout(b, c),
    ensures
        same_layout(a, c),
{
    reveal(same_layout);
    assert forall|k: int| 0 <= k < a.len() implies match (#[trigger] a[k], c[k]) {
        (GridEntry::Cell(c1), GridEntry::Cell(c3)) => {
            &&& c3.x == c1.x
            &&& c3.y == c1.y
            &&& c3.rowspan == c1.rowspan
            &&& c3.colspan == c1.colspan
            &&& c3.id == c1.id
            &&& c3.data.tag == c1.data.tag
            &&& c3.data.kind == c1.data.kind
            &&& extends(c1.data.headers@, c3.data.headers@)
        },
        (GridEntry::Spanned(p), GridEntry::Spanned(q)) => p == q,
        (GridEntry::Missing, GridEntry::Missing) => true,
        _ => false,
    } by {
        let x = b[k];
        if let (GridEntry::Cell(c1), GridEntry::Cell(c2), GridEntry::Cell(c3)) = (a[k], b[k], c[k]) {
            let h1 = c1.data.headers@;
            let h2 = c2.data.headers@;
            let h3 = c3.data.headers@;
            assert(h3.subrange(0, h1.len() as int) =~= h3.subrange(0, h2.len() as int).subrange(
                0,
                h1.len() as int,
            ));
        }
    }
}

/// Resolving the headers of one position keeps the layout of the map.
/// The header references of each position's own cell; none elsewhere.
pub open spec fn header_views(e: Seq<GridEntry<TableCellData>>) -> Seq<Seq<CellRef>> {
    Seq::new(
        e.len(),
        |k: int|
            match e[k] {
                GridEntry::Cell(c) => c.data.headers@,
                _ => Seq::empty(),
            },
    )
}

/// The position whose cell covers position `k`.
pub open spec fn owner_of(e: Seq<GridEntry<TableCellData>>, k: int) -> int {
    match e[k] {
        GridEntry::Spanned(p) => p as int,
        _ => k,
    }
}

/// One step of a header sweep at position `k` of a table laid out as `e`:
/// the header stack is updated for the cell that covers `k`, and that cell
/// gains the references of the stack entry that heads it. `refs` holds the
/// header references of each position's own cell.
pub open spec fn sweep_step(
    e: Seq<GridEntry<TableCellData>>,
    refs: Seq<Seq<CellRef>>,
    stack: Seq<HeaderEntry>,
    k: int,
    region: Option<(u32, u32)>,
    dir: HeaderDirection,
    table: TableId,
) -> (Seq<Seq<CellRef>>, Seq<HeaderEntry>) {
    let o = owner_of(e, k);
    match e[o] {
        GridEntry::Cell(c) => {
            let (s, r) = header_resolution(stack, region, dir, c, table);
            let own = match r {
                Some(i) => merge_ids(refs[o], s[i as int].ids),
                None => refs[o],
            };
            (refs.update(o, own), s)
        },
        _ => (refs, stack),
    }
}

/// The header region that contains row `y`, in conventional rows: the first
/// region not ended before the row, if it has begun.
pub open spec fn header_region_at(headers: Seq<HeaderRegion>, has_gutter: bool, y: int) -> Option<
    (u32, u32),
> {
    let gy = to_effective_spec(has_gutter, y);
    let i = first_open_from(headers, gy, 0);
    if i < headers.len() && headers[i].start <= gy && gy < headers[i].end {
        Some(
            (
                from_effective_spec(has_gutter, headers[i].start as int),
                from_effective_spec(has_gutter, headers[i].end as int),
            ),
        )
    } else {
        None
    }
}

/// Column `x` swept from row `y` down, with the header stack `stack`.
pub open spec fn column_sweep(
    e: Seq<GridEntry<TableCellData>>,
    w: nat,
    h: nat,
    headers: Seq<HeaderRegion>,
    has_gutter: bool,
    table: TableId,
    x: nat,
    y: nat,
    refs: Seq<Seq<CellRef>>,
    stack: Seq<HeaderEntry>,
) -> Seq<Seq<CellRef>>
    decreases h - y,
{
    if y >= h {
        refs
    } else {
        let (refs2, stack2) = sweep_step(
            e,
            refs,
            stack,
            (y * w + x) as int,
            header_region_at(headers, has_gutter, y as int),
            HeaderDirection::Column,
            table,
        );
        column_sweep(e, w, h, headers, has_gutter, table, x, y + 1, refs2, stack2)
    }
}

/// Columns `x..w` swept one after another, each from an empty stack.
pub open spec fn columns_swept(
    e: Seq<GridEntry<TableCellData>>,
    w: nat,
    h: nat,
    headers: Seq<HeaderRegion>,
    has_gutter: bool,
    table: TableId,
    x: nat,
    refs: Seq<Seq<CellRef>>,
) -> Seq<Seq<CellRef>>
    decreases w - x,
{
    if x >= w {
        refs
    } else {
        columns_swept(
            e,
            w,
            h,
            headers,
            has_gutter,
            table,
            x + 1,
            column_sweep(e, w, h, headers, has_gutter, table, x, 0, refs, Seq::empty()),
        )
    }
}

/// Row `y` swept from column `x` on, with the header stack `stack`.
pub open spec fn row_sweep(
    e: Seq<GridEntry<TableCellData>>,
    w: nat,
    table: TableId,
    y: nat,
    x: nat,
    refs: Seq<Seq<CellRef>>,
    stack: Seq<HeaderEntry>,
) -> Seq<Seq<CellRef>>
    decreases w - x,
{
    if x >= w {
        refs
    } else {
        let (refs2, stack2) = sweep_step(
            e,
            refs,
            stack,
            (y * w + x) as int,
            None,
            HeaderDirection::Row,
            table,
        );
        row_sweep(e, w, table, y, x + 1, refs2, stack2)
    }
}

/// Rows `y..h` swept one after another, each from an empty stack.
pub open spec fn rows_swept(
    e: Seq<GridEntry<TableCellData>>,
    w: nat,
    h: nat,
    table: TableId,
    y: nat,
    refs: Seq<Seq<CellRef>>,
) -> Seq<Seq<CellRef>>
    decreases h - y,
{
    if y >= h {
        refs
    } else {
        rows_swept(e, w, h, table, y + 1, row_sweep(e, w, table, y, 0, refs, Seq::empty()))
    }
}

/// The header references of every cell of a table laid out as `e`, with
/// `w` columns and `h` rows: its own, extended column by column (with the
/// table's header regions), then row by row.
pub open spec fn resolved_header_refs(
    e: Seq<GridEntry<TableCellData>>,
    w: nat,
    h: nat,
    headers: Seq<HeaderRegion>,
    has_gutter: bool,
    table: TableId,
) -> Seq<Seq<CellRef>> {
    rows_swept(
        e,
        w,
        h,
        table,
        0,
        columns_swept(e, w, h, headers, has_gutter, table, 0, header_views(e)),
    )
}

/// A header resolution step on the current cells is the sweep step on the
/// layout they share with `e0`.
proof fn lemma_sweep_step(
    e0: Seq<GridEntry<TableCellData>>,
    before: GridCells<TableCellData>,
    after: GridCells<TableCellData>,
    x: int,
    y: int,
    stack: Seq<HeaderEntry>,
    stack_after: Seq<HeaderEntry>,
    region: Option<(u32, u32)>,
    dir: HeaderDirection,
    table: TableId,
)
    requires
        before.wf(),
        same_layout(e0, before.entries_seq()),
        0 <= before.index_of(x, y) < before.entries_seq().len(),
        after.cols() == before.cols(),
        before.resolve_at_spec(x, y) is None ==> {
            &&& after.entries_seq() == before.entries_seq()
            &&& stack_after == stack
        },
        before.resolve_at_spec(x, y) matches Some(c) ==> {
            let (s, r) = header_resolution(stack, region, dir, c, table);
            let k = before.owner_index(x, y);
            &&& stack_after == s
            &&& after.entries_seq() == before.entries_seq().update(k, after.entries_seq()[k])
            &&& after.entries_seq()[k] matches GridEntry::Cell(c2) && with_headers(
                c,
                c2,
                resolved_headers(c, s, r),
            )
        },
    ensures
        (header_views(after.entries_seq()), stack_after) == sweep_step(
            e0,
            header_views(before.entries_seq()),
            stack,
            before.index_of(x, y),
            region,
            dir,
            table,
        ),
{
    reveal(same_layout);
    let e = before.entries_seq();
    let a = after.entries_seq();
    let k = before.index_of(x, y);
    let o = owner_of(e0, k);
    assert(e0[k] matches GridEntry::Spanned(p) ==> e[k] == GridEntry::<TableCellData>::Spanned(p));
    assert(o == before.owner_index(x, y));
    if e[o] is Spanned {
        assert(e0[o] is Spanned);
    }
    assert(0 <= o < e.len()) by {
        if e[k] is Spanned {
            assert(e[k]->Spanned_0 < e.len());
        }
    }
    match before.resolve_at_spec(x, y) {
        None => {
            assert(!(e0[o] is Cell)) by {
                if e0[o] is Cell {
                    assert(e[o] is Cell);
                }
            }
        },
        Some(c) => {
            assert(e[o] == GridEntry::Cell(c));
            let c0 = e0[o]->Cell_0;
            assert(e0[o] == GridEntry::Cell(c0));
            assert(header_resolution(stack, region, dir, c, table) == header_resolution(
                stack,
                region,
                dir,
                c0,
                table,
            ));
            let (s, r) = header_resolution(stack, region, dir, c, table);
            let own = match r {
                Some(i) => merge_ids(header_views(e)[o], s[i as int].ids),
                None => header_views(e)[o],
            };
            assert(header_views(a) =~= header_views(e).update(o, own));
        },
    }
}

proof fn lemma_resolve_keeps_layout(
    before: GridCells<TableCellData>,
    after: GridCells<TableCellData>,
    x: int,
    y: int,
    stack: Seq<HeaderEntry>,
    r: Option<usize>,
)
    requires
        before.wf(),
        0 <= before.index_of(x, y) < before.entries_seq().len(),
        after.cols() == before.cols(),
        before.resolve_at_spec(x, y) is None ==> after.entries_seq() == before.entries_seq(),
        before.resolve_at_spec(x, y) matches Some(c) ==> {
            let k = before.owner_index(x, y);
            &&& after.entries_seq() == before.entries_seq().update(k, after.entries_seq()[k])
            &&& after.entries_seq()[k] matches GridEntry::Cell(c2) && with_headers(
                c,
                c2,
                resolved_headers(c, stack, r),
            )
        },
    ensures
        after.wf(),
        after.entries_seq().len() == before.entries_seq().len(),
        same_layout(before.entries_seq(), after.entries_seq()),
{
    reveal(same_layout);
    let e = before.entries_seq();
    let a = after.entries_seq();
    assert forall|h: Seq<CellRef>| #[trigger] extends(h, h) by {
        assert(h.subrange(0, h.len() as int) =~= h);
    }
    if let Some(c) = before.resolve_at_spec(x, y) {
        if let Some(h) = r {
            lemma_merge_extends(c.data.headers@, stack[h as int].ids);
        }
        let k = before.owner_index(x, y);
        assert(e[k] == GridEntry::Cell(c));
        assert forall|j: int| 0 <= j < e.len() && j != k implies #[trigger] a[j] == e[j] by {}
        assert forall|j: int| 0 <= j < e.len() && (#[trigger] a[j]) is Spanned implies a[j]->Spanned_0
            < a.len() by {
            assert(j != k);
        }
        assert(same_layout(e, a)) by {
            assert forall|j: int| 0 <= j < e.len() implies match (#[trigger] e[j], a[j]) {
                (GridEntry::Cell(c1), GridEntry::Cell(c2)) => {
                    &&& c2.x == c1.x
                    &&& c2.y == c1.y
                    &&& c2.rowspan == c1.rowspan
                    &&& c2.colspan == c1.colspan
                    &&& c2.id == c1.id
                    &&& c2.data.tag == c1.data.tag
                    &&& c2.data.kind == c1.data.kind
                    &&& extends(c1.data.headers@, c2.data.headers@)
                },
                (GridEntry::Spanned(p), GridEntry::Spanned(q)) => p == q,
                (GridEntry::Missing, GridEntry::Missing) => true,
                _ => false,
            } by {
                if j != k {
                    if let GridEntry::Cell(c1) = e[j] {
                        assert(extends(c1.data.headers@, c1.data.headers@));
                    }
                }
            }
        }
    } else {
        assert(same_layout(e, a)) by {
            assert forall|j: int| 0 <= j < e.len() implies match (#[trigger] e[j], a[j]) {
                (GridEntry::Cell(c1), GridEntry::Cell(c2)) => {
                    &&& c2.x == c1.x
                    &&& c2.y == c1.y
                    &&& c2.rowspan == c1.rowspan
                    &&& c2.colspan == c1.colspan
                    &&& c2.id == c1.id
                    &&& c2.data.tag == c1.data.tag
                    &&& c2.data.kind == c1.data.kind
                    &&& extends(c1.data.headers@, c2.data.headers@)
                },
                (GridEntry::Spanned(p), GridEntry::Spanned(q)) => p == q,
                (GridEntry::Missing, GridEntry::Missing) => true,
                _ => false,
            } by {
                if let GridEntry::Cell(c1) = e[j] {
                    assert(extends(c1.data.headers@, c1.data.headers@));
                }
            }
        }
    }
}

/// Placing a cell keeps every cell at its own position.
proof fn lemma_insert_keeps_home<T>(before: GridCells<T>, after: GridCells<T>, cell: CtxCell<T>)
    requires
        cells_at_home(before),
        before.can_insert(cell),
        before.inserted(after, cell),
    ensures
        cells_at_home(after),
{
    let p = before.index_of(cell.x as int, cell.y as int);
    assert forall|k: int|
        0 <= k < after.entries_seq().len() && (#[trigger] after.entries_seq()[k]) is Cell implies after.index_of(
        after.entries_seq()[k]->Cell_0.x as int,
        after.entries_seq()[k]->Cell_0.y as int,
    ) == k by {
        if k != p {
            assert(before.entries_seq()[k] is Cell);
        }
    }
}

/// A map with the same layout keeps every cell at its own position.
proof fn lemma_same_layout_keeps_home(before: GridCells<TableCellData>, after: GridCells<TableCellData>)
    requires
        cells_at_home(before),
        after.cols() == before.cols(),
        same_layout(before.entries_seq(), after.entries_seq()),
    ensures
        cells_at_home(after),
{
    reveal(same_layout);
    assert forall|k: int|
        0 <= k < after.entries_seq().len() && (#[trigger] after.entries_seq()[k]) is Cell implies after.index_of(
        after.entries_seq()[k]->Cell_0.x as int,
        after.entries_seq()[k]->Cell_0.y as int,
    ) == k by {
        assert(before.entries_seq()[k] is Cell);
    }
}

/// The tag of a table cell: a header cell with its scope and its own
/// reference, or a data cell.
#[derive(Clone, Copy, Debug, PartialEq, Eq, Structural)]
pub enum CellTag {
    Th(TableHeaderScope, CellRef),
    Td,
}

/// The tag-tree node of one table cell.
pub struct CellPlan {
    /// The cell's group.
    pub id: GroupId,
    /// The cell's tag.
    pub tag: TagId,
    /// What tag the cell gets.
    pub kind: CellTag,
    /// The header cells the cell refers to.
    pub headers: Vec<CellRef>,
    /// The row span, if it is not one.
    pub rowspan: Option<u32>,
    /// The column span, if it is not one.
    pub colspan: Option<u32>,
    /// The cell's position.
    pub x: u32,
    pub y: u32,
    /// The cell's border strokes.
    pub strokes: Sides<PrioritizedStroke>,
}

/// The tag-tree nodes of one table row.
pub struct RowPlan {
    /// The row group that starts at this row, if any.
    pub group: Option<RowGroupTag>,
    /// The row's cells, in order.
    pub cells: Vec<CellPlan>,
}

/// How a table enters the tag tree.
pub enum TablePlan {
    /// The table could not be laid out completely: its cells' groups become
    /// plain children of the table's group, in row-major order.
    Flat(Vec<GroupId>),
    /// Row by row, with row groups, header references and strokes.
    Rows(Vec<RowPlan>),
}

/// Whether `rows` are the nodes of the rows of a table with `h` rows of `w`
/// positions: each row's group start, and the node of each cell of the row
/// in order.
#[verifier::opaque]
pub open spec fn rows_planned(
    rows: Seq<RowPlan>,
    f: Seq<GridEntry<TableCellData>>,
    st: Seq<Sides<PrioritizedStroke>>,
    kinds: Seq<TableCellKind>,
    gen: bool,
    w: u32,
    h: u32,
    table_id: TableId,
) -> bool {
    &&& rows.len() == h
    &&& forall|y: int|
        0 <= y < h ==> {
            let pos = cell_positions(f, y * w, w as int);
            &&& (#[trigger] rows[y]).group == row_group_start(kinds, gen, y)
            &&& rows[y].cells@.len() == pos.len()
            &&& forall|i: int|
                0 <= i < pos.len() ==> plans_cell(
                    #[trigger] rows[y].cells@[i],
                    f[pos[i]]->Cell_0,
                    st[pos[i]],
                    table_id,
                )
        }
}

/// Whether `p` is the node of cell `c` with the given strokes.
pub open spec fn plans_cell(
    p: CellPlan,
    c: CtxCell<TableCellData>,
    st: Sides<PrioritizedStroke>,
    table: TableId,
) -> bool {
    &&& p.id == c.id
    &&& p.tag == c.data.tag
    &&& p.kind == match c.data.kind {
        TableCellKind::Header(_, scope) => CellTag::Th(scope, CellRef { table: table.0, x: c.x, y: c.y }),
        _ => CellTag::Td,
    }
    &&& p.headers@ == c.data.headers@
    &&& p.rowspan == (if c.rowspan != 1 { Some(c.rowspan) } else { None })
    &&& p.colspan == (if c.colspan != 1 { Some(c.colspan) } else { None })
    &&& p.x == c.x
    &&& p.y == c.y
    &&& p.strokes == st
}

/// The positions `start..start + n` of `entries` that hold cells, in order.
pub open spec fn cell_positions<T>(entries: Seq<GridEntry<T>>, start: int, n: int) -> Seq<int>
    decreases n,
{
    if n <= 0 {
        Seq::empty()
    } else {
        let prev = cell_positions(entries, start, n - 1);
        if entries[start + n - 1] is Cell {
            prev.push(start + n - 1)
        } else {
            prev
        }
    }
}

/// The strokes of a table's cells once its explicit lines are placed and
/// its overlapping strokes are resolved.
pub open spec fn built_strokes(
    cells: GridCells<TableCellData>,
    sm: StrokeMeta,
    has_gutter: bool,
    w: u32,
    h: u32,
) -> Seq<Sides<PrioritizedStroke>> {
    let st0 = initial_strokes(sm, has_gutter, cells.entries_seq());
    let st1 = place_groups(st0, cells, sm.hlines@, sm.hlines@.len() as int, h, w, LineAxis::Horizontal);
    let st2 = place_groups(st1, cells, sm.vlines@, sm.vlines@.len() as int, w, h, LineAxis::Vertical);
    sweep_cols(
        sweep_rows(st2, cells, h as int, if w == 0 { 0 } else { w - 1 }),
        cells,
        w as int,
        if h == 0 { 0 } else { h - 1 },
    )
}

/// Whether `border` is a stroke the table's border can inherit, given the
/// strokes of its cells (see [`border_choice`]).
#[verifier::opaque]
pub open spec fn border_of(
    st: Seq<Sides<PrioritizedStroke>>,
    entries: Seq<GridEntry<TableCellData>>,
    border: Option<(u32, bool)>,
) -> bool {
    border_choice(st, entries, border)
}


fn copy_refs(v: &Vec<CellRef>) -> (r: Vec<CellRef>)
    ensures
        r@ == v@,
{
    let mut r: Vec<CellRef> = Vec::new();
    let mut k: usize = 0;
    while k < v.len()
        invariant
            k <= v@.len(),
            r@ == v@.take(k as int),
        decreases v@.len() - k,
    {
        r.push(v[k]);
        proof {
            assert(v@.take(k + 1) =~= v@.take(k as int).push(v@[k as int]));
        }
        k = k + 1;
    }
    proof {
        assert(v@.take(v@.len() as int) =~= v@);
    }
    r
}

/// The stroke grid of a table's cells: cell patterns, then horizontal and
/// vertical lines, then overlapping strokes resolved.
fn table_stroke_grid(cells: &GridCells<TableCellData>, meta: &TableMeta, width: u32, height: u32) -> (sg:
    StrokeGrid)
    requires
        cells.wf(),
        cells_at_home(*cells),
        cells.cols() == width,
        width > 0,
        cells.rows_count() == height,
        meta.has_gutter ==> 2 * cells.entries_seq().len() <= usize::MAX,
        lines_in_range(meta.strokes.hlines@, height),
        lines_in_range(meta.strokes.vlines@, width),
    ensures
        sg.cols() == width,
        sg.strokes_seq().len() == cells.entries_seq().len(),
        sg.strokes_seq() == built_strokes(*cells, meta.strokes, meta.has_gutter, width, height),
{
    proof {
        let len = cells.entries_seq().len() as int;
        vstd::arithmetic::div_mod::lemma_fundamental_div_mod(len, width as int);
        assert(len == width * height) by (nonlinear_arith)
            requires
                len == width * (len / width as int) + len % width as int,
                len % width as int == 0,
                height == len / width as int;
    }
    let mut sg = StrokeGrid::from_grid(&meta.strokes, meta.has_gutter, cells, width, height);
    sg.place_explicit_lines(cells, &meta.strokes.hlines, height, width, LineAxis::Horizontal);
    sg.place_explicit_lines(cells, &meta.strokes.vlines, width, height, LineAxis::Vertical);
    sg.remove_overlaps(cells, width, height);
    sg
}

/// The nodes of each row of a table: the row group starting there and the
/// nodes of the row's cells, in order.
fn plan_rows(
    cells: &GridCells<TableCellData>,
    sg: &StrokeGrid,
    starts: &Vec<Option<RowGroupTag>>,
    table_id: TableId,
    width: u32,
    height: u32,
) -> (rows: Vec<RowPlan>)
    requires
        cells.wf(),
        cells_at_home(*cells),
        cells.cols() == width,
        width > 0,
        cells.entries_seq().len() == width * height,
        sg.cols() == width,
        sg.strokes_seq().len() == cells.entries_seq().len(),
        starts@.len() == height,
    ensures
        rows@.len() == height,
        forall|y: int|
            0 <= y < height ==> {
                let pos = cell_positions(cells.entries_seq(), y * width, width as int);
                &&& (#[trigger] rows@[y]).group == starts@[y]
                &&& rows@[y].cells@.len() == pos.len()
                &&& forall|i: int|
                    0 <= i < pos.len() ==> plans_cell(
                        #[trigger] rows@[y].cells@[i],
                        cells.entries_seq()[pos[i]]->Cell_0,
                        sg.strokes_seq()[pos[i]],
                        table_id,
                    )
            },
{
    let ghost cm = *cells;
    let ghost st = sg.strokes_seq();
    let w = width as usize;
    let entries = cells.iter();
    let mut rows: Vec<RowPlan> = Vec::new();
    let mut y: u32 = 0;
    while y < height
        invariant
            y <= height,
            entries@ == cm.entries_seq(),
            cm.wf(),
            cells_at_home(cm),
            cm.cols() == width,
            w == width,
            width > 0,
            entries@.len() == width * height,
            sg.strokes_seq() == st,
            sg.cols() == width,
            st.len() == entries@.len(),
            starts@.len() == height,
            rows@.len() == y,
            forall|r: int|
                0 <= r < y ==> {
                    let pos = cell_positions(cm.entries_seq(), r * width, width as int);
                    &&& (#[trigger] rows@[r]).group == starts@[r]
                    &&& rows@[r].cells@.len() == pos.len()
                    &&& forall|i: int|
                        0 <= i < pos.len() ==> plans_cell(
                            #[trigger] rows@[r].cells@[i],
                            cm.entries_seq()[pos[i]]->Cell_0,
                            st[pos[i]],
                            table_id,
                        )
                },
        decreases height - y,
    {
        let mut plans: Vec<CellPlan> = Vec::new();
        let mut x: u32 = 0;
        while x < width
            invariant
                y < height,
                x <= width,
                entries@ == cm.entries_seq(),
                cm.wf(),
                cells_at_home(cm),
                cm.cols() == width,
                w == width,
                width > 0,
                entries@.len() == width * height,
                sg.strokes_seq() == st,
                sg.cols() == width,
                st.len() == entries@.len(),
                ({
                    let pos = cell_positions(cm.entries_seq(), y * width, x as int);
                    &&& plans@.len() == pos.len()
                    &&& forall|i: int|
                        0 <= i < pos.len() ==> plans_cell(
                            #[trigger] plans@[i],
                            cm.entries_seq()[pos[i]]->Cell_0,
                            st[pos[i]],
                            table_id,
                        )
                }),
            decreases width - x,
        {
            proof {
                assert(y * width + x < width * height) by (nonlinear_arith)
                    requires y < height, x < width;
                assert(0 <= y * width) by (nonlinear_arith);
            }
            let k = y as usize * w + x as usize;
            match entries[k].as_cell() {
                Some(c) => {
                    proof {
                        assert(cm.index_of(c.x as int, c.y as int) == k);
                    }
                    let kind = match c.data.kind {
                        TableCellKind::Header(_, scope) => CellTag::Th(
                            scope,
                            CellRef { table: table_id.0, x: c.x, y: c.y },
                        ),
                        _ => CellTag::Td,
                    };
                    let strokes = sg.get(c.x, c.y);
                    let plan = CellPlan {
                        id: c.id,
                        tag: c.data.tag,
                        kind,
                        headers: copy_refs(&c.data.headers),
                        rowspan: if c.rowspan != 1 {
                            Some(c.rowspan)
                        } else {
                            None
                        },
                        colspan: if c.colspan != 1 {
                            Some(c.colspan)
                        } else {
                            None
                        },
                        x: c.x,
                        y: c.y,
                        strokes,
                    };
                    plans.push(plan);
                },
                None => {},
            }
            x = x + 1;
        }
        rows.push(RowPlan { group: starts[y as usize], cells: plans });
        y = y + 1;
    }
    rows
}

/// The border stroke and the row nodes of a table whose cells and row
/// kinds are final.
fn finish_table(
    cells: &GridCells<TableCellData>,
    meta: &TableMeta,
    row_kinds: &Vec<TableCellKind>,
    gen: bool,
    table_id: TableId,
    width: u32,
    height: u32,
) -> (r: (Option<(u32, bool)>, Vec<RowPlan>))
    requires
        cells.wf(),
        cells_at_home(*cells),
        cells.cols() == width,
        width > 0,
        height > 0,
        cells.rows_count() == height,
        row_kinds@.len() == height,
        meta.has_gutter ==> 2 * cells.entries_seq().len() <= usize::MAX,
        4 * cells.entries_seq().len() <= usize::MAX,
        lines_in_range(meta.strokes.hlines@, height),
        lines_in_range(meta.strokes.vlines@, width),
    ensures
        border_of(
            built_strokes(*cells, meta.strokes, meta.has_gutter, width, height),
            cells.entries_seq(),
            r.0,
        ),
        rows_planned(
            r.1@,
            cells.entries_seq(),
            built_strokes(*cells, meta.strokes, meta.has_gutter, width, height),
            row_kinds@,
            gen,
            width,
            height,
            table_id,
        ),
{
    let sg = table_stroke_grid(cells, meta, width, height);
    let border = sg.try_resolve_table_stroke(cells);
    let starts = row_group_starts(row_kinds, gen, height as usize);
    proof {
        let len = cells.entries_seq().len() as int;
        vstd::arithmetic::div_mod::lemma_fundamental_div_mod(len, width as int);
        assert(len == width * height) by (nonlinear_arith)
            requires
                len == width * (len / width as int) + len % width as int,
                len % width as int == 0,
                height == len / width as int;
    }
    let rows = plan_rows(cells, &sg, &starts, table_id, width, height);
    proof {
        reveal(rows_planned);
        reveal(border_of);
    }
    (border, rows)
}

/// Build the tag-tree nodes of a table whose positions all hold cells.
#[verifier::spinoff_prover]
fn build_complete_table(ctx: &mut TableCtx) -> (plan: TablePlan)
    requires
        old(ctx).wf(),
        old(ctx).cell_map().cols() <= u32::MAX,
        old(ctx).cell_map().rows_count() <= u32::MAX,
        old(ctx).meta_spec().0 ==> 2 * old(ctx).cell_map().entries_seq().len() <= usize::MAX,
        4 * old(ctx).cell_map().entries_seq().len() <= usize::MAX,
        old(ctx).checked_rows_resolve(),
        lines_in_range(old(ctx).meta_spec().3.hlines@, old(ctx).cell_map().rows_count() as u32),
        lines_in_range(old(ctx).meta_spec().3.vlines@, old(ctx).cell_map().cols() as u32),
        old(ctx).cell_map().entries_seq().len() > 0,
        forall|k: int|
            0 <= k < old(ctx).cell_map().entries_seq().len() ==> !((#[trigger] old(ctx).cell_map().entries_seq()[k]) is Missing),
    ensures
        final(ctx).group() == old(ctx).group(),
        final(ctx).table() == old(ctx).table(),
        final(ctx).meta_spec() == old(ctx).meta_spec(),
        final(ctx).summary_spec() == old(ctx).summary_spec(),
        final(ctx).wf(),
        final(ctx).cell_map().cols() == old(ctx).cell_map().cols(),
        ({
            let e = old(ctx).cell_map().entries_seq();
                let w = old(ctx).cell_map().cols() as u32;
                let h = old(ctx).cell_map().rows_count() as u32;
                let f = final(ctx).cell_map().entries_seq();
                let st = built_strokes(final(ctx).cell_map(), old(ctx).meta_spec().3, old(ctx).meta_spec().0, w, h);
                let gen = old(ctx).groups_rows();
                &&& same_layout(e, f)
                &&& header_views(f) == resolved_header_refs(
                    e,
                    old(ctx).cell_map().cols(),
                    h as nat,
                    old(ctx).meta_spec().1,
                    old(ctx).meta_spec().0,
                    old(ctx).table(),
                )
                &&& final(ctx).row_kinds_seq().len() == old(ctx).row_kinds_seq().len()
                &&& forall|r: int|
                    0 <= r < final(ctx).row_kinds_seq().len() ==> #[trigger] final(ctx).row_kinds_seq()[r]
                        == if r < old(ctx).first_mixed_row(0) {
                        old(ctx).first_kind(r)
                    } else {
                        old(ctx).row_kinds_seq()[r]
                    }
                &&& border_of(st, f, final(ctx).border_spec())
                &&& plan matches TablePlan::Rows(rows) && rows_planned(
                    rows@,
                    f,
                    st,
                    final(ctx).row_kinds_seq(),
                    gen,
                    w,
                    h,
                    old(ctx).table(),
                )
        }),
{
    let ghost e = ctx.cells.entries_seq();
    let width = ctx.cells.width();
    let height = ctx.cells.height();
    let gen = ctx.compute_row_groups();
    proof {
        let m = ctx.cell_map();
        assert(m.rows_count() <= m.entries_seq().len()) by {
            vstd::arithmetic::div_mod::lemma_div_is_ordered_by_denominator(
                m.entries_seq().len() as int,
                1,
                m.cols() as int,
            );
        }
    }
    ctx.resolve_headers();
    proof {
        lemma_same_layout_keeps_home(old(ctx).cell_map(), ctx.cell_map());
        assert(ctx.cell_map().rows_count() == old(ctx).cell_map().rows_count());
        assert(ctx.cell_map().rows_count() > 0) by {
            let len = ctx.cell_map().entries_seq().len() as int;
            let c = ctx.cell_map().cols() as int;
            vstd::arithmetic::div_mod::lemma_fundamental_div_mod(len, c);
            assert(len / c > 0) by (nonlinear_arith)
                requires len == c * (len / c) + len % c, len % c == 0, len > 0, c > 0;
        }
    }
    let (border, rows) = finish_table(&ctx.cells, &ctx.meta, &ctx.row_kinds, gen, ctx.table_id, width, height);
    ctx.border = border;
    TablePlan::Rows(rows)
}

/// Whether every position of a map holds a cell or a reference to one,
/// and there is at least one position.
pub open spec fn complete_map<T>(m: GridCells<T>) -> bool {
    &&& m.entries_seq().len() > 0
    &&& forall|k: int| 0 <= k < m.entries_seq().len() ==> !((#[trigger] m.entries_seq()[k]) is Missing)
}

/// Build the tag-tree nodes of a table.
///
/// If the table has no positions or a position without a cell, every cell's
/// group becomes a plain child of the table. Otherwise the rows are checked
/// for row groups, the header references of all cells are resolved, the
/// border strokes are computed (cell patterns, then horizontal and vertical
/// lines, then overlapping strokes), the table's inherited border stroke is
/// stored, and every row yields its row group start and its cells' nodes.
pub fn build_table(ctx: &mut TableCtx) -> (plan: TablePlan)
    requires
        old(ctx).wf(),
        complete_map(old(ctx).cell_map()) ==> {
            &&& old(ctx).cell_map().cols() <= u32::MAX
            &&& old(ctx).cell_map().rows_count() <= u32::MAX
            &&& old(ctx).meta_spec().0 ==> 2 * old(ctx).cell_map().entries_seq().len() <= usize::MAX
            &&& 4 * old(ctx).cell_map().entries_seq().len() <= usize::MAX
            &&& old(ctx).checked_rows_resolve()
            &&& lines_in_range(
                old(ctx).meta_spec().3.hlines@,
                old(ctx).cell_map().rows_count() as u32,
            )
            &&& lines_in_range(old(ctx).meta_spec().3.vlines@, old(ctx).cell_map().cols() as u32)
        },
    ensures
        final(ctx).group() == old(ctx).group(),
        final(ctx).table() == old(ctx).table(),
        final(ctx).meta_spec() == old(ctx).meta_spec(),
        final(ctx).summary_spec() == old(ctx).summary_spec(),
        final(ctx).wf(),
        final(ctx).cell_map().cols() == old(ctx).cell_map().cols(),
        ({
            let e = old(ctx).cell_map().entries_seq();
            let incomplete = e.len() == 0 || exists|k: int| 0 <= k < e.len() && (#[trigger] e[k]) is Missing;
            &&& incomplete ==> {
                &&& plan matches TablePlan::Flat(ids) && ids@ == cell_ids(e)
                &&& final(ctx).cell_map() == old(ctx).cell_map()
                &&& final(ctx).row_kinds_seq() == old(ctx).row_kinds_seq()
                &&& final(ctx).border_spec() == old(ctx).border_spec()
            }
            &&& !incomplete ==> {
                let w = old(ctx).cell_map().cols() as u32;
                let h = old(ctx).cell_map().rows_count() as u32;
                let f = final(ctx).cell_map().entries_seq();
                let st = built_strokes(final(ctx).cell_map(), old(ctx).meta_spec().3, old(ctx).meta_spec().0, w, h);
                let gen = old(ctx).groups_rows();
                &&& same_layout(e, f)
                &&& header_views(f) == resolved_header_refs(
                    e,
                    old(ctx).cell_map().cols(),
                    h as nat,
                    old(ctx).meta_spec().1,
                    old(ctx).meta_spec().0,
                    old(ctx).table(),
                )
                &&& final(ctx).row_kinds_seq().len() == old(ctx).row_kinds_seq().len()
                &&& forall|r: int|
                    0 <= r < final(ctx).row_kinds_seq().len() ==> #[trigger] final(ctx).row_kinds_seq()[r]
                        == if r < old(ctx).first_mixed_row(0) {
                        old(ctx).first_kind(r)
                    } else {
                        old(ctx).row_kinds_seq()[r]
                    }
                &&& border_of(st, f, final(ctx).border_spec())
                &&& plan matches TablePlan::Rows(rows) && rows_planned(
                    rows@,
                    f,
                    st,
                    final(ctx).row_kinds_seq(),
                    gen,
                    w,
                    h,
                    old(ctx).table(),
                )
            }
        }),
{
    if ctx.cells.is_empty() || has_missing(&ctx.cells) {
        let ids = cell_group_ids(&ctx.cells);
        return TablePlan::Flat(ids);
    }
    proof {
        assert(ctx.cell_map().cols() > 0);
    }
    build_complete_table(ctx)
}

proof fn lemma_first_mixed_row_skip(ctx: TableCtx, a: int, y: int)
    requires
        0 <= a <= y,
        y <= ctx.checked_rows(),
        forall|r: int| a <= r < y ==> #[trigger] ctx.row_uniform(r),
    ensures
        ctx.first_mixed_row(a) == ctx.first_mixed_row(y),
    decreases y - a,
{
    if a < y {
        lemma_first_mixed_row_skip(ctx, a + 1, y);
    }
}

/// The attributes of a table's own tag.
pub struct TableTag {
    /// The table's summary, for accessibility.
    pub summary: Option<String>,
    /// The stroke that the table's border inherits, and whether it is the
    /// only stroke of the table.
    pub border: Option<(u32, bool)>,
}

/// The text of a table cell's id: the table's number (its index plus one),
/// `x`, the column, `y`, the row.
pub open spec fn cell_id_text(r: CellRef) -> Seq<char> {
    decimal(r.table as nat + 1) + seq!['x'] + decimal(r.x as nat) + seq!['y'] + decimal(r.y as nat)
}

/// The id of a header cell, as written into the tag tree.
pub fn table_cell_id(r: CellRef) -> (id: String)
    requires
        r.table < u32::MAX,
    ensures
        id@ == cell_id_text(r),
{
    proof {
        reveal_strlit("x");
        reveal_strlit("y");
    }
    let mut id = String::new();
    push_decimal(&mut id, (r.table + 1) as u64);
    id.append("x");
    push_decimal(&mut id, r.x as u64);
    id.append("y");
    push_decimal(&mut id, r.y as u64);
    id
}

/// The table tags being collected while building the tag tree.
pub struct TableCtx {
    group_id: GroupId,
    table_id: TableId,
    meta: TableMeta,
    summary: Option<String>,
    row_kinds: Vec<TableCellKind>,
    cells: GridCells<TableCellData>,
    border: Option<(u32, bool)>,
}

impl TableCtx {
    /// The well-formedness of a table context: a well-formed cell map whose
    /// cells sit at their own positions, and a kind for each row.
    pub open spec fn wf(&self) -> bool {
        &&& self.cell_map().wf()
        &&& cells_at_home(self.cell_map())
        &&& self.cell_map().cols() > 0 ==> self.row_kinds_seq().len() == self.cell_map().rows_count() as u32
    }

    /// The stroke the table's border inherits, once the table is built: the
    /// most used stroke and whether it is the only one.
    pub closed spec fn border_spec(&self) -> Option<(u32, bool)> {
        self.border
    }

    /// The group of the table itself.
    pub closed spec fn group(&self) -> GroupId {
        self.group_id
    }

    /// The table's id.
    pub closed spec fn table(&self) -> TableId {
        self.table_id
    }

    /// The layout facts of the table.
    pub closed spec fn meta_spec(&self) -> (bool, Seq<HeaderRegion>, Option<FooterRegion>, StrokeMeta) {
        (self.meta.has_gutter, self.meta.headers@, self.meta.footer, self.meta.strokes)
    }

    /// The kind of each row.
    pub closed spec fn row_kinds_seq(&self) -> Seq<TableCellKind> {
        self.row_kinds@
    }

    /// The table's cell map.
    pub closed spec fn cell_map(&self) -> GridCells<TableCellData> {
        self.cells
    }

    /// The table's summary.
    pub closed spec fn summary_spec(&self) -> Option<String> {
        self.summary
    }

    /// Create the context of a table with `width` non-gutter columns and
    /// `height` non-gutter rows. Each row starts with its default kind; the
    /// row count is taken modulo 2^32.
    pub fn new(
        group_id: GroupId,
        table_id: TableId,
        meta: TableMeta,
        summary: Option<String>,
        width: usize,
        height: usize,
    ) -> (ctx: TableCtx)
        requires
            width * height <= usize::MAX,
            meta.has_gutter ==> 2 * (height as u32) <= usize::MAX + 2,
        ensures
            ctx.group() == group_id,
            ctx.table() == table_id,
            ctx.meta_spec() == (meta.has_gutter, meta.headers@, meta.footer, meta.strokes),
            ctx.summary_spec() == summary,
            ctx.wf(),
            ctx.border_spec() is None,
            ctx.cell_map().wf(),
            ctx.cell_map().cols() == width,
            ctx.cell_map().entries_seq().len() == width * height,
            forall|k: int|
                0 <= k < width * height ==> (#[trigger] ctx.cell_map().entries_seq()[k]) is Missing,
            ctx.row_kinds_seq().len() == height as u32,
            forall|y: int|
                0 <= y < height as u32 ==> #[trigger] ctx.row_kinds_seq()[y] == default_row_kind(
                    meta.has_gutter,
                    meta.headers@,
                    meta.footer,
                    y,
                ),
    {
        let n = height as u32;
        proof {
            if width > 0 {
                assert((width * height) as int / width as int == height) by {
                    vstd::arithmetic::div_mod::lemma_div_by_multiple(height as int, width as int);
                    assert(width * height == height * width) by (nonlinear_arith);
                }
            }
        }
        let mut row_kinds: Vec<TableCellKind> = Vec::new();
        let mut hi: usize = 0;
        let mut y: u32 = 0;
        while y < n
            invariant
                n == height as u32,
                meta.has_gutter ==> 2 * n <= usize::MAX + 2,
                y <= n,
                hi <= meta.headers@.len(),
                forall|m: int|
                    0 <= m < hi ==> #[trigger] meta.headers@[m].end <= to_effective_spec(
                        meta.has_gutter,
                        y as int,
                    ),
                row_kinds@.len() == y,
                forall|r: int|
                    0 <= r < y ==> #[trigger] row_kinds@[r] == default_row_kind(
                        meta.has_gutter,
                        meta.headers@,
                        meta.footer,
                        r,
                    ),
            decreases n - y,
        {
            let gy = meta.to_effective(y);
            while hi < meta.headers.len() && meta.headers[hi].end <= gy
                invariant
                    hi <= meta.headers@.len(),
                    forall|m: int| 0 <= m < hi ==> #[trigger] meta.headers@[m].end <= gy,
                decreases meta.headers@.len() - hi,
            {
                hi = hi + 1;
            }
            proof {
                lemma_first_open_skip(meta.headers@, gy as int, 0, hi as int);
            }
            let kind = if hi < meta.headers.len() && meta.headers[hi].start <= gy && gy
                < meta.headers[hi].end {
                TableCellKind::Header(meta.headers[hi].level, TableHeaderScope::Column)
            } else {
                match meta.footer {
                    Some(f) => {
                        if f.start <= gy && gy < f.end {
                            TableCellKind::Footer
                        } else {
                            TableCellKind::Data
                        }
                    },
                    None => TableCellKind::Data,
                }
            };
            row_kinds.push(kind);
            y = y + 1;
        }
        TableCtx {
            group_id,
            table_id,
            meta,
            summary,
            row_kinds,
            cells: GridCells::new(width, height),
            border: None,
        }
    }

    /// The kind of the first cell of row `y`.
    pub open spec fn first_kind(&self, y: int) -> TableCellKind {
        let m = self.cell_map();
        resolved_kind(m.entries_seq(), m.entries_seq()[y * m.cols()])
    }

    /// Whether the first cell of row `y` resolves to a cell.
    pub open spec fn first_resolves(&self, y: int) -> bool {
        let m = self.cell_map();
        resolve_entry(m.entries_seq(), m.entries_seq()[y * m.cols()]).is_some()
    }

    /// Whether every cell of row `y` keeps the row uniform.
    pub open spec fn row_uniform(&self, y: int) -> bool {
        let m = self.cell_map();
        forall|i: int|
            0 <= i < m.cols() && (#[trigger] resolve_entry(
                m.entries_seq(),
                m.entries_seq()[y * m.cols() + i],
            )).is_some() ==> keeps_row_uniform(
                resolved_kind(m.entries_seq(), m.entries_seq()[y * m.cols() + i]),
                self.first_kind(y),
            )
    }

    /// The rows that the uniformity check walks: those that have a kind.
    pub open spec fn checked_rows(&self) -> int {
        let a = self.cell_map().rows_count() as int;
        let b = self.row_kinds_seq().len() as int;
        if a <= b { a } else { b }
    }

    /// Whether the first position of every row that the uniformity check
    /// reaches resolves to a cell: the check reads the rows in order and
    /// stops after the first one that is not uniform.
    pub open spec fn checked_rows_resolve(&self) -> bool {
        forall|y: int|
            0 <= y < self.checked_rows() && (forall|r: int| 0 <= r < y ==> #[trigger] self.row_uniform(r))
                ==> #[trigger] self.first_resolves(y)
    }

    /// The first row, from `y` on, that is not uniform, or the number of
    /// checked rows if there is none.
    pub open spec fn first_mixed_row(&self, y: int) -> int
        decreases self.checked_rows() - y,
    {
        if y < 0 || y >= self.checked_rows() {
            self.checked_rows()
        } else if !self.row_uniform(y) {
            y
        } else {
            self.first_mixed_row(y + 1)
        }
    }

    /// Whether the rows are organized into header, body and footer groups:
    /// only if every row is uniform, and there is a header or footer row
    /// and a data row.
    pub open spec fn groups_rows(&self) -> bool {
        let b = self.first_mixed_row(0);
        &&& b == self.checked_rows()
        &&& exists|r: int| 0 <= r < b && !(#[trigger] self.first_kind(r) is Data)
        &&& exists|r: int| 0 <= r < b && (#[trigger] self.first_kind(r) is Data)
    }

    /// Decide whether to generate row groups, and give every row that the
    /// check has seen to be uniform the kind of its first cell.
    fn compute_row_groups(&mut self) -> (gen: bool)
        requires
            old(self).cell_map().wf(),
            old(self).cell_map().cols() > 0,
            forall|y: int|
                0 <= y < old(self).checked_rows() && (forall|r: int|
                    0 <= r < y ==> #[trigger] old(self).row_uniform(r)) ==> #[trigger] old(self).first_resolves(y),
        ensures
            gen == old(self).groups_rows(),
            final(self).group() == old(self).group(),
            final(self).table() == old(self).table(),
            final(self).meta_spec() == old(self).meta_spec(),
            final(self).summary_spec() == old(self).summary_spec(),
            final(self).cell_map() == old(self).cell_map(),
            final(self).border_spec() == old(self).border_spec(),
            final(self).row_kinds_seq().len() == old(self).row_kinds_seq().len(),
            forall|r: int|
                0 <= r < final(self).row_kinds_seq().len() ==> #[trigger] final(self).row_kinds_seq()[r] == if r < old(self).first_mixed_row(0) {
                    old(self).first_kind(r)
                } else {
                    old(self).row_kinds_seq()[r]
                },
    {
        let rows = self.cells.rows();
        let n = if rows.len() <= self.row_kinds.len() {
            rows.len()
        } else {
            self.row_kinds.len()
        };
        let ghost m = old(self).cell_map();
        let ghost w = m.cols() as int;
        let ghost entries = m.entries_seq();
        let mut has_header_or_footer = false;
        let mut has_body = false;
        let mut uniform = true;
        let mut y: usize = 0;
        while uniform && y < n
            invariant
                y <= n,
                n <= rows@.len(),
                n == old(self).checked_rows(),
                rows@.len() == m.rows_count(),
                forall|r: int|
                    0 <= r < rows@.len() ==> (#[trigger] rows@[r])@ == entries.subrange(
                        r * w,
                        (r + 1) * w,
                    ),
                m.wf(),
                m == old(self).cell_map(),
                w > 0,
                w == m.cols(),
                entries == m.entries_seq(),
                self.cell_map() == m,
                self.group() == old(self).group(),
                self.table() == old(self).table(),
                self.meta_spec() == old(self).meta_spec(),
                self.summary_spec() == old(self).summary_spec(),
                self.border_spec() == old(self).border_spec(),
                self.row_kinds_seq().len() == old(self).row_kinds_seq().len(),
                forall|y2: int|
                    0 <= y2 < old(self).checked_rows() && (forall|r: int|
                        0 <= r < y2 ==> #[trigger] old(self).row_uniform(r))
                        ==> #[trigger] old(self).first_resolves(y2),
                forall|r: int| 0 <= r < y ==> #[trigger] old(self).row_uniform(r),
                !uniform ==> y < n && !old(self).row_uniform(y as int),
                forall|r: int|
                    0 <= r < self.row_kinds_seq().len() ==> #[trigger] self.row_kinds_seq()[r]
                        == if r < y {
                        old(self).first_kind(r)
                    } else {
                        old(self).row_kinds_seq()[r]
                    },
                has_header_or_footer == exists|r: int|
                    0 <= r < y && !(#[trigger] old(self).first_kind(r) is Data),
                has_body == exists|r: int| 0 <= r < y && (#[trigger] old(self).first_kind(r) is Data),
            decreases n - y, (if uniform { 1int } else { 0int }),
        {
            let row = rows[y];
            proof {
                assert((y + 1) * w == y * w + w) by (nonlinear_arith);
                assert(y * w + w <= entries.len()) by {
                    assert(y < m.rows_count());
                    assert((y + 1) * w <= m.rows_count() * w) by (nonlinear_arith)
                        requires y < m.rows_count(), w > 0;
                    vstd::arithmetic::div_mod::lemma_fundamental_div_mod(entries.len() as int, w);
                }
                assert(row@.len() == w);
                assert(row@[0] == entries[y * w]);
                assert(old(self).first_resolves(y as int));
                assert(m.cols() == w);
                assert(old(self).cell_map() == m);
                assert((y as int) * m.cols() == y * w);
                assert(entries[y * w] == m.entries_seq()[(y as int) * m.cols()]);
                assert(resolve_entry(entries, entries[y * w]).is_some());
                assert(resolve_entry(entries, row@[0]).is_some());
                assert(old(self).first_kind(y as int) == resolved_kind(entries, row@[0]));
            }
            let e0 = &row[0];
            let first = self.cells.resolve(e0).unwrap();
            let first_kind = first.data.kind;
            let mut ok = true;
            let ghost mut bad: int = 0;
            let mut i: usize = 0;
            while ok && i < row.len()
                invariant
                    i <= row@.len(),
                    row@.len() == w,
                    row@ == entries.subrange(y * w, y * w + w),
                    y * w + w <= entries.len(),
                    m.wf(),
                    m == old(self).cell_map(),
                    w == m.cols(),
                    entries == m.entries_seq(),
                    self.cell_map() == m,
                    first_kind == old(self).first_kind(y as int),
                    forall|i2: int|
                        0 <= i2 < i && (#[trigger] resolve_entry(entries, entries[y * w + i2])).is_some()
                            ==> keeps_row_uniform(
                            resolved_kind(entries, entries[y * w + i2]),
                            first_kind,
                        ),
                    !ok ==> 0 <= bad < w && resolve_entry(entries, entries[y * w + bad]).is_some()
                        && !keeps_row_uniform(resolved_kind(entries, entries[y * w + bad]), first_kind),
                decreases row@.len() - i, (if ok { 1int } else { 0int }),
            {
                proof {
                    assert(row@[i as int] == entries[y * w + i]);
                    assert(0 <= y * w + i < entries.len());
                    if entries[y * w + i] is Spanned {
                        assert(entries[y * w + i]->Spanned_0 < entries.len());
                    }
                }
                match self.cells.resolve(&row[i]) {
                    Some(c) => {
                        let bad_scope = match c.data.kind {
                            TableCellKind::Header(_, scope) => match scope {
                                TableHeaderScope::Column => false,
                                _ => true,
                            },
                            _ => false,
                        };
                        if bad_scope || first_kind != c.data.kind {
                            ok = false;
                            proof {
                                bad = i as int;
                            }
                        } else {
                            i = i + 1;
                        }
                    },
                    None => {
                        i = i + 1;
                    },
                }
            }
            if !ok {
                uniform = false;
                proof {
                    assert(!old(self).row_uniform(y as int)) by {
                        assert(resolve_entry(entries, entries[y * w + bad]).is_some());
                    }
                }
            } else {
                proof {
                    assert(old(self).row_uniform(y as int));
                }
                self.row_kinds.set(y, first_kind);
                has_header_or_footer = has_header_or_footer || !(match first_kind {
                    TableCellKind::Data => true,
                    _ => false,
                });
                has_body = has_body || (match first_kind {
                    TableCellKind::Data => true,
                    _ => false,
                });
                proof {
                    assert(old(self).first_kind(y as int) == first_kind);
                }
                y = y + 1;
            }
        }
        proof {
            lemma_first_mixed_row_skip(*old(self), 0, y as int);
        }
        uniform && has_header_or_footer && has_body
    }

    /// Compute the header references of all cells: column-wise, with the
    /// header regions of the table, then row-wise.
    ///
    /// Each step is [`resolve_cell_headers`]; the cells keep their layout and
    /// only gain header references.
    fn resolve_headers(&mut self)
        requires
            old(self).cell_map().wf(),
            old(self).cell_map().cols() > 0,
            old(self).cell_map().cols() <= u32::MAX,
            old(self).meta_spec().0 ==> 2 * (old(self).cell_map().rows_count() as u32) <= usize::MAX
                + 2,
        ensures
            final(self).group() == old(self).group(),
            final(self).table() == old(self).table(),
            final(self).meta_spec() == old(self).meta_spec(),
            final(self).summary_spec() == old(self).summary_spec(),
            final(self).row_kinds_seq() == old(self).row_kinds_seq(),
            final(self).border_spec() == old(self).border_spec(),
            final(self).cell_map().wf(),
            final(self).cell_map().cols() == old(self).cell_map().cols(),
            final(self).cell_map().entries_seq().len() == old(self).cell_map().entries_seq().len(),
            same_layout(old(self).cell_map().entries_seq(), final(self).cell_map().entries_seq()),
            header_views(final(self).cell_map().entries_seq()) == resolved_header_refs(
                old(self).cell_map().entries_seq(),
                old(self).cell_map().cols(),
                (old(self).cell_map().rows_count() as u32) as nat,
                old(self).meta_spec().1,
                old(self).meta_spec().0,
                old(self).table(),
            ),
    {
        let width = self.cells.width();
        let height = self.cells.height();
        let ghost e0 = self.cells.entries_seq();
        let ghost w = width as nat;
        let ghost h = height as nat;
        let ghost hd = self.meta_spec().1;
        let ghost g = self.meta_spec().0;
        let ghost t = self.table();
        let ghost cols_total = columns_swept(e0, w, h, hd, g, t, 0, header_views(e0));
        let ghost total = rows_swept(e0, w, h, t, 0, cols_total);
        proof {
            reveal(same_layout);
            assert forall|hh: Seq<CellRef>| #[trigger] extends(hh, hh) by {
                assert(hh.subrange(0, hh.len() as int) =~= hh);
            }
            assert(same_layout(e0, e0)) by {
                assert forall|j: int| 0 <= j < e0.len() implies match (#[trigger] e0[j], e0[j]) {
                    (GridEntry::Cell(c1), GridEntry::Cell(c2)) => {
                        &&& c2.x == c1.x
                        &&& c2.y == c1.y
                        &&& c2.rowspan == c1.rowspan
                        &&& c2.colspan == c1.colspan
                        &&& c2.id == c1.id
                        &&& c2.data.tag == c1.data.tag
                        &&& c2.data.kind == c1.data.kind
                        &&& extends(c1.data.headers@, c2.data.headers@)
                    },
                    (GridEntry::Spanned(p), GridEntry::Spanned(q)) => p == q,
                    (GridEntry::Missing, GridEntry::Missing) => true,
                    _ => false,
                } by {
                    if let GridEntry::Cell(c1) = e0[j] {
                        assert(extends(c1.data.headers@, c1.data.headers@));
                    }
                }
            }
            assert(w == old(self).cell_map().cols());
        }
        let mut x: u32 = 0;
        while x < width
            invariant
                x <= width,
                width == old(self).cell_map().cols() as u32,
                w == old(self).cell_map().cols(),
                w == width as nat,
                height == old(self).cell_map().rows_count() as u32,
                h == height as nat,
                e0 == old(self).cell_map().entries_seq(),
                hd == self.meta_spec().1,
                g == self.meta_spec().0,
                t == self.table(),
                self.group() == old(self).group(),
                self.table() == old(self).table(),
                self.meta_spec() == old(self).meta_spec(),
                self.meta_spec().0 ==> 2 * height <= usize::MAX + 2,
                self.summary_spec() == old(self).summary_spec(),
                self.row_kinds_seq() == old(self).row_kinds_seq(),
                self.border_spec() == old(self).border_spec(),
                self.cell_map().wf(),
                self.cell_map().cols() == old(self).cell_map().cols(),
                self.cell_map().cols() > 0,
                same_layout(e0, self.cell_map().entries_seq()),
                self.cell_map().entries_seq().len() == e0.len(),
                columns_swept(e0, w, h, hd, g, t, x as nat, header_views(self.cell_map().entries_seq()))
                    == cols_total,
            decreases width - x,
        {
            let mut column_headers: Vec<HeaderCells> = Vec::new();
            let mut hi: usize = 0;
            let mut y: u32 = 0;
            proof {
                assert(stack_view(column_headers@) =~= Seq::<HeaderEntry>::empty());
                assert(columns_swept(
                    e0,
                    w,
                    h,
                    hd,
                    g,
                    t,
                    x as nat,
                    header_views(self.cell_map().entries_seq()),
                ) == columns_swept(
                    e0,
                    w,
                    h,
                    hd,
                    g,
                    t,
                    x as nat + 1,
                    column_sweep(
                        e0,
                        w,
                        h,
                        hd,
                        g,
                        t,
                        x as nat,
                        0,
                        header_views(self.cell_map().entries_seq()),
                        Seq::empty(),
                    ),
                ));
            }
            while y < height
                invariant
                    x < width,
                    y <= height,
                    hi <= self.meta_spec().1.len(),
                    width == old(self).cell_map().cols() as u32,
                    w == old(self).cell_map().cols(),
                    w == width as nat,
                w == width as nat,
                    height == old(self).cell_map().rows_count() as u32,
                    h == height as nat,
                    e0 == old(self).cell_map().entries_seq(),
                    hd == self.meta_spec().1,
                    g == self.meta_spec().0,
                    t == self.table(),
                    self.group() == old(self).group(),
                    self.table() == old(self).table(),
                    self.meta_spec() == old(self).meta_spec(),
                    self.meta_spec().0 ==> 2 * height <= usize::MAX + 2,
                    self.summary_spec() == old(self).summary_spec(),
                    self.row_kinds_seq() == old(self).row_kinds_seq(),
                    self.border_spec() == old(self).border_spec(),
                    self.cell_map().wf(),
                    self.cell_map().cols() == old(self).cell_map().cols(),
                    self.cell_map().cols() > 0,
                    same_layout(e0, self.cell_map().entries_seq()),
                    self.cell_map().entries_seq().len() == e0.len(),
                    forall|m: int|
                        0 <= m < hi ==> #[trigger] hd[m].end <= to_effective_spec(g, y as int),
                    columns_swept(
                        e0,
                        w,
                        h,
                        hd,
                        g,
                        t,
                        x as nat + 1,
                        column_sweep(
                            e0,
                            w,
                            h,
                            hd,
                            g,
                            t,
                            x as nat,
                            y as nat,
                            header_views(self.cell_map().entries_seq()),
                            stack_view(column_headers@),
                        ),
                    ) == cols_total,
                decreases height - y,
            {
                let grid_y = self.meta.to_effective(y);
                while hi < self.meta.headers.len() && self.meta.headers[hi].end <= grid_y
                    invariant
                        hi <= self.meta.headers@.len(),
                        hd == self.meta.headers@,
                        grid_y == to_effective_spec(g, y as int),
                        forall|m: int| 0 <= m < hi ==> #[trigger] hd[m].end <= grid_y,
                    decreases self.meta.headers@.len() - hi,
                {
                    hi = hi + 1;
                }
                proof {
                    lemma_first_open_skip(hd, grid_y as int, 0, hi as int);
                }
                let region_range = if hi < self.meta.headers.len() && self.meta.headers[hi].start
                    <= grid_y && grid_y < self.meta.headers[hi].end {
                    let start = self.meta.from_effective(self.meta.headers[hi].start);
                    let end = self.meta.from_effective(self.meta.headers[hi].end);
                    Some((start, end))
                } else {
                    None
                };
                let ghost before = self.cells;
                let ghost stack0 = stack_view(column_headers@);
                proof {
                    assert(before.rows_count() == old(self).cell_map().rows_count()) by {
                        assert(before.entries_seq().len() == e0.len());
                    }
                    lemma_position_in_range(before, x as int, y as int);
                    assert(region_range == header_region_at(hd, g, y as int));
                }
                resolve_cell_headers(
                    self.table_id,
                    &mut self.cells,
                    &mut column_headers,
                    region_range,
                    HeaderDirection::Column,
                    x,
                    y,
                );
                proof {
                    let (s2, r) = match before.resolve_at_spec(x as int, y as int) {
                        Some(c) => header_resolution(
                            stack0,
                            region_range,
                            HeaderDirection::Column,
                            c,
                            self.table_id,
                        ),
                        None => (stack0, None),
                    };
                    lemma_resolve_keeps_layout(before, self.cells, x as int, y as int, s2, r);
                    lemma_sweep_step(
                        e0,
                        before,
                        self.cells,
                        x as int,
                        y as int,
                        stack0,
                        stack_view(column_headers@),
                        region_range,
                        HeaderDirection::Column,
                        self.table_id,
                    );
                    lemma_same_layout_trans(e0, before.entries_seq(), self.cells.entries_seq());
                    assert(before.index_of(x as int, y as int) == (y as nat * w + x as nat) as int);
                    assert(to_effective_spec(g, y as int) <= to_effective_spec(g, y as int + 1));
                }
                y = y + 1;
            }
            x = x + 1;
        }
        proof {
            assert(header_views(self.cell_map().entries_seq()) == cols_total);
        }
        let mut y: u32 = 0;
        while y < height
            invariant
                y <= height,
                width == old(self).cell_map().cols() as u32,
                w == old(self).cell_map().cols(),
                w == width as nat,
                height == old(self).cell_map().rows_count() as u32,
                h == height as nat,
                e0 == old(self).cell_map().entries_seq(),
                t == self.table(),
                self.group() == old(self).group(),
                self.table() == old(self).table(),
                self.meta_spec() == old(self).meta_spec(),
                self.summary_spec() == old(self).summary_spec(),
                self.row_kinds_seq() == old(self).row_kinds_seq(),
                self.border_spec() == old(self).border_spec(),
                self.cell_map().wf(),
                self.cell_map().cols() == old(self).cell_map().cols(),
                self.cell_map().cols() > 0,
                same_layout(e0, self.cell_map().entries_seq()),
                self.cell_map().entries_seq().len() == e0.len(),
                rows_swept(e0, w, h, t, y as nat, header_views(self.cell_map().entries_seq()))
                    == total,
            decreases height - y,
        {
            let mut row_headers: Vec<HeaderCells> = Vec::new();
            let mut x: u32 = 0;
            proof {
                assert(stack_view(row_headers@) =~= Seq::<HeaderEntry>::empty());
                assert(rows_swept(e0, w, h, t, y as nat, header_views(self.cell_map().entries_seq()))
                    == rows_swept(
                    e0,
                    w,
                    h,
                    t,
                    y as nat + 1,
                    row_sweep(
                        e0,
                        w,
                        t,
                        y as nat,
                        0,
                        header_views(self.cell_map().entries_seq()),
                        Seq::empty(),
                    ),
                ));
            }
            while x < width
                invariant
                    y < height,
                    x <= width,
                    width == old(self).cell_map().cols() as u32,
                    w == old(self).cell_map().cols(),
                    w == width as nat,
                w == width as nat,
                    height == old(self).cell_map().rows_count() as u32,
                    h == height as nat,
                    e0 == old(self).cell_map().entries_seq(),
                    t == self.table(),
                    self.group() == old(self).group(),
                    self.table() == old(self).table(),
                    self.meta_spec() == old(self).meta_spec(),
                    self.summary_spec() == old(self).summary_spec(),
                    self.row_kinds_seq() == old(self).row_kinds_seq(),
                    self.border_spec() == old(self).border_spec(),
                    self.cell_map().wf(),
                    self.cell_map().cols() == old(self).cell_map().cols(),
                    self.cell_map().cols() > 0,
                    same_layout(e0, self.cell_map().entries_seq()),
                    self.cell_map().entries_seq().len() == e0.len(),
                    rows_swept(
                        e0,
                        w,
                        h,
                        t,
                        y as nat + 1,
                        row_sweep(
                            e0,
                            w,
                            t,
                            y as nat,
                            x as nat,
                            header_views(self.cell_map().entries_seq()),
                            stack_view(row_headers@),
                        ),
                    ) == total,
                decreases width - x,
            {
                let ghost before = self.cells;
                let ghost stack0 = stack_view(row_headers@);
                proof {
                    assert(before.rows_count() == old(self).cell_map().rows_count()) by {
                        assert(before.entries_seq().len() == e0.len());
                    }
                    lemma_position_in_range(before, x as int, y as int);
                }
                resolve_cell_headers(
                    self.table_id,
                    &mut self.cells,
                    &mut row_headers,
                    None,
                    HeaderDirection::Row,
                    x,
                    y,
                );
                proof {
                    let (s2, r) = match before.resolve_at_spec(x as int, y as int) {
                        Some(c) => header_resolution(
                            stack0,
                            None,
                            HeaderDirection::Row,
                            c,
                            self.table_id,
                        ),
                        None => (stack0, None),
                    };
                    lemma_resolve_keeps_layout(before, self.cells, x as int, y as int, s2, r);
                    lemma_sweep_step(
                        e0,
                        before,
                        self.cells,
                        x as int,
                        y as int,
                        stack0,
                        stack_view(row_headers@),
                        None,
                        HeaderDirection::Row,
                        self.table_id,
                    );
                    lemma_same_layout_trans(e0, before.entries_seq(), self.cells.entries_seq());
                    assert(before.index_of(x as int, y as int) == (y as nat * w + x as nat) as int);
                }
                x = x + 1;
            }
            proof {
                assert(row_sweep(
                    e0,
                    w,
                    t,
                    y as nat,
                    x as nat,
                    header_views(self.cell_map().entries_seq()),
                    stack_view(row_headers@),
                ) == header_views(self.cell_map().entries_seq()));
            }
            y = y + 1;
        }
    }

    /// Free the cell map, the row kinds and the layout facts once the table
    /// is built. Only the summary and the border remain.
    pub fn free_cells(&mut self)
        ensures
            final(self).group() == old(self).group(),
            final(self).table() == old(self).table(),
            final(self).summary_spec() == old(self).summary_spec(),
            final(self).border_spec() == old(self).border_spec(),
            final(self).wf(),
            final(self).cell_map().cols() == 0,
            final(self).cell_map().entries_seq().len() == 0,
            final(self).row_kinds_seq().len() == 0,
            final(self).meta_spec().0 == false,
            final(self).meta_spec().1.len() == 0,
            final(self).meta_spec().2 is None,
            final(self).meta_spec().3.effective_cols == 0,
            final(self).meta_spec().3.cell_strokes@.len() == 0,
            final(self).meta_spec().3.hlines@.len() == 0,
            final(self).meta_spec().3.vlines@.len() == 0,
    {
        self.cells.clear();
        self.row_kinds = Vec::new();
        self.meta = TableMeta {
            has_gutter: false,
            headers: Vec::new(),
            footer: None,
            strokes: StrokeMeta {
                effective_cols: 0,
                cell_strokes: Vec::new(),
                hlines: Vec::new(),
                vlines: Vec::new(),
            },
        };
    }

    /// The attributes of the table's own tag: its summary and the border
    /// stroke its cells inherit.
    pub fn build_tag(&self) -> (t: TableTag)
        ensures
            t.summary == self.summary_spec(),
            t.border == self.border_spec(),
    {
        let summary = match &self.summary {
            Some(s) => Some(s.clone()),
            None => None,
        };
        TableTag { summary, border: self.border }
    }

    /// Place a cell of the table. A cell without a custom kind takes the
    /// kind of its row.
    pub fn insert(&mut self, info: &CellInfo, tag: TagId, id: GroupId)
        requires
            old(self).wf(),
            (info.y as int) < old(self).row_kinds_seq().len(),
            old(self).cell_map().can_place(
                info.x,
                info.y,
                span_or_one(info.colspan),
                span_or_one(info.rowspan),
            ),
        ensures
            final(self).group() == old(self).group(),
            final(self).table() == old(self).table(),
            final(self).meta_spec() == old(self).meta_spec(),
            final(self).summary_spec() == old(self).summary_spec(),
            final(self).row_kinds_seq() == old(self).row_kinds_seq(),
            final(self).border_spec() == old(self).border_spec(),
            final(self).wf(),
            exists|headers: Vec<CellRef>|
                headers@.len() == 0 && old(self).cell_map().inserted(
                    final(self).cell_map(),
                    CtxCell {
                        data: TableCellData {
                            tag,
                            kind: cell_kind_for(
                                info.kind,
                                old(self).row_kinds_seq()[info.y as int],
                            ),
                            headers,
                        },
                        x: info.x,
                        y: info.y,
                        rowspan: span_or_one(info.rowspan),
                        colspan: span_or_one(info.colspan),
                        id,
                    },
                ),
    {
        let row_kind = self.row_kinds[info.y as usize];
        let kind = match info.kind {
            Some(Smart::Custom(k)) => k,
            _ => row_kind,
        };
        let headers: Vec<CellRef> = Vec::new();
        let cell = CtxCell {
            data: TableCellData { tag, kind, headers },
            x: info.x,
            y: info.y,
            rowspan: span_or_one_exec(info.rowspan),
            colspan: span_or_one_exec(info.colspan),
            id,
        };
        let ghost before = self.cells;
        let ghost c = cell;
        self.cells.insert(cell);
        proof {
            lemma_insert_keeps_home(before, self.cells, c);
            assert(self.cells.rows_count() == before.rows_count());
        }
    }
}

} // verus!
