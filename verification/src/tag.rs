//! Introspection tags, including the compact tags of grid and table cells.

use vstd::prelude::*;

verus! {

/// Either automatically determined or customized.
#[derive(Clone, Copy, Debug, PartialEq, Eq, Structural)]
pub enum Smart<T> {
    Auto,
    Custom(T),
}

/// Which direction a table header cell refers to.
#[derive(Clone, Copy, Debug, PartialEq, Eq, Structural)]
pub enum TableHeaderScope {
    /// The header cell refers to both its row and its column.
    Both,
    /// The header cell refers to its column.
    Column,
    /// The header cell refers to its row.
    Row,
}

/// The semantic kind of a table cell.
///
/// The header level is at least one.
#[derive(Clone, Copy, Debug, PartialEq, Eq, Structural)]
pub enum TableCellKind {
    Header(u32, TableHeaderScope),
    Footer,
    Data,
}

/// The stable identity of an introspectable element.
#[derive(Clone, Copy, Debug, PartialEq, Eq, Structural, Hash)]
pub struct Location(pub u128);

/// Flags stored on every tag.
#[derive(Clone, Copy, Debug, PartialEq, Eq, Structural, Hash)]
pub struct TagFlags {
    /// Whether the element will be inserted into the introspector.
    pub introspectable: bool,
    /// Whether the element is tagged.
    pub tagged: bool,
}

impl TagFlags {
    /// Whether any flag is set.
    pub fn any(&self) -> (b: bool)
        ensures
            b == (self.introspectable || self.tagged),
    {
        self.introspectable || self.tagged
    }
}

/// The kind of a cell tag.
#[derive(Clone, Copy, Debug, PartialEq, Eq, Structural, Hash)]
pub enum CellTagKind {
    /// A grid cell (non-table).
    GridCell,
    /// A table data cell.
    TableData,
    /// A table header cell.
    TableHeader { level: u8, scope: u8 },
    /// A table footer cell.
    TableFooter,
    /// A repeated cell (header/footer repeat, becomes artifact), and
    /// whether it is a grid cell rather than a table cell.
    Repeated { in_grid: bool },
}

/// Whether a compact kind belongs to a table cell rather than a grid cell.
pub open spec fn is_table_kind(kind: CellTagKind) -> bool {
    match kind {
        CellTagKind::GridCell => false,
        CellTagKind::Repeated { in_grid } => !in_grid,
        _ => true,
    }
}

/// Compact metadata for grid and table cell tags.
#[derive(Clone, Copy, Debug, PartialEq, Eq, Structural, Hash)]
pub struct CellTagMeta {
    /// Cell X position in the grid.
    pub x: u16,
    /// Cell Y position in the grid.
    pub y: u32,
    /// Number of columns this cell spans.
    pub colspan: u16,
    /// Number of rows this cell spans.
    pub rowspan: u16,
    /// Cell type and kind.
    pub kind: CellTagKind,
}

/// `v` clamped to `max`.
pub open spec fn clamp(v: int, max: int) -> int {
    if v <= max { v } else { max }
}

/// The number of a header scope in a compact cell tag.
pub open spec fn scope_code(scope: TableHeaderScope) -> u8 {
    match scope {
        TableHeaderScope::Both => 0,
        TableHeaderScope::Column => 1,
        TableHeaderScope::Row => 2,
    }
}

/// The header scope that a compact cell tag's scope number stands for.
pub open spec fn scope_from_code(code: u8) -> TableHeaderScope {
    if code == 1 {
        TableHeaderScope::Column
    } else if code == 2 {
        TableHeaderScope::Row
    } else {
        TableHeaderScope::Both
    }
}

/// The compact kind of a table cell.
pub open spec fn table_kind_spec(kind: Smart<TableCellKind>, is_repeated: bool) -> CellTagKind {
    if is_repeated {
        CellTagKind::Repeated { in_grid: false }
    } else {
        match kind {
            Smart::Custom(TableCellKind::Header(level, scope)) => CellTagKind::TableHeader {
                level: clamp(level as int, 255) as u8,
                scope: scope_code(scope),
            },
            Smart::Custom(TableCellKind::Footer) => CellTagKind::TableFooter,
            _ => CellTagKind::TableData,
        }
    }
}

/// The compact kind of a grid cell.
pub open spec fn grid_kind_spec(is_repeated: bool) -> CellTagKind {
    if is_repeated {
        CellTagKind::Repeated { in_grid: true }
    } else {
        CellTagKind::GridCell
    }
}

/// The table cell kind that a compact kind converts back to.
pub open spec fn to_table_cell_kind_spec(kind: CellTagKind) -> Smart<TableCellKind> {
    match kind {
        CellTagKind::TableHeader { level, scope } => Smart::Custom(
            TableCellKind::Header(if level == 0 { 1 } else { level as u32 }, scope_from_code(scope)),
        ),
        CellTagKind::TableFooter => Smart::Custom(TableCellKind::Footer),
        _ => Smart::Auto,
    }
}

fn clamp_u16(v: usize) -> (r: u16)
    ensures
        r == clamp(v as int, u16::MAX as int),
{
    if v <= 65535 {
        v as u16
    } else {
        65535u16
    }
}

fn clamp_u32(v: usize) -> (r: u32)
    ensures
        r == clamp(v as int, u32::MAX as int),
{
    if v <= 4294967295 {
        v as u32
    } else {
        4294967295u32
    }
}

fn scope_to_code(scope: TableHeaderScope) -> (c: u8)
    ensures
        c == scope_code(scope),
{
    match scope {
        TableHeaderScope::Both => 0,
        TableHeaderScope::Column => 1,
        TableHeaderScope::Row => 2,
    }
}

impl CellTagMeta {
    /// Create metadata for a table cell. Coordinates and spans saturate at
    /// the maximum of their field; a repeated cell becomes `Repeated`, and
    /// a header level saturates at 255.
    pub fn table(
        x: usize,
        y: usize,
        colspan: usize,
        rowspan: usize,
        kind: Smart<TableCellKind>,
        is_repeated: bool,
    ) -> (m: CellTagMeta)
        ensures
            m.x == clamp(x as int, u16::MAX as int),
            m.y == clamp(y as int, u32::MAX as int),
            m.colspan == clamp(colspan as int, u16::MAX as int),
            m.rowspan == clamp(rowspan as int, u16::MAX as int),
            m.kind == table_kind_spec(kind, is_repeated),
    {
        let cell_kind = if is_repeated {
            CellTagKind::Repeated { in_grid: false }
        } else {
            match kind {
                Smart::Custom(TableCellKind::Header(level, scope)) => {
                    let l: u8 = if level <= 255 {
                        level as u8
                    } else {
                        255u8
                    };
                    CellTagKind::TableHeader { level: l, scope: scope_to_code(scope) }
                },
                Smart::Custom(TableCellKind::Footer) => CellTagKind::TableFooter,
                Smart::Custom(TableCellKind::Data) => CellTagKind::TableData,
                Smart::Auto => CellTagKind::TableData,
            }
        };
        CellTagMeta {
            x: clamp_u16(x),
            y: clamp_u32(y),
            colspan: clamp_u16(colspan),
            rowspan: clamp_u16(rowspan),
            kind: cell_kind,
        }
    }

    /// Create metadata for a grid cell.
    pub fn grid(x: usize, y: usize, colspan: usize, rowspan: usize, is_repeated: bool) -> (m:
        CellTagMeta)
        ensures
            m.x == clamp(x as int, u16::MAX as int),
            m.y == clamp(y as int, u32::MAX as int),
            m.colspan == clamp(colspan as int, u16::MAX as int),
            m.rowspan == clamp(rowspan as int, u16::MAX as int),
            m.kind == grid_kind_spec(is_repeated),
    {
        CellTagMeta {
            x: clamp_u16(x),
            y: clamp_u32(y),
            colspan: clamp_u16(colspan),
            rowspan: clamp_u16(rowspan),
            kind: if is_repeated {
                CellTagKind::Repeated { in_grid: true }
            } else {
                CellTagKind::GridCell
            },
        }
    }

    /// Whether this is a table cell (not a grid cell).
    pub fn is_table(&self) -> (b: bool)
        ensures
            b == is_table_kind(self.kind),
    {
        match self.kind {
            CellTagKind::GridCell => false,
            CellTagKind::Repeated { in_grid } => !in_grid,
            _ => true,
        }
    }

    /// Convert back to the table cell kind.
    pub fn to_table_cell_kind(&self) -> (k: Smart<TableCellKind>)
        ensures
            k == to_table_cell_kind_spec(self.kind),
    {
        match self.kind {
            CellTagKind::TableData => Smart::Auto,
            CellTagKind::TableHeader { level, scope } => {
                let level: u32 = if level == 0 {
                    1
                } else {
                    level as u32
                };
                let scope = if scope == 1 {
                    TableHeaderScope::Column
                } else if scope == 2 {
                    TableHeaderScope::Row
                } else {
                    TableHeaderScope::Both
                };
                Smart::Custom(TableCellKind::Header(level, scope))
            },
            CellTagKind::TableFooter => Smart::Custom(TableCellKind::Footer),
            CellTagKind::GridCell => Smart::Auto,
            CellTagKind::Repeated { .. } => Smart::Auto,
        }
    }
}

/// Marks the start or end of a locatable element. `C` is the element's
/// content.
pub enum Tag<C> {
    /// The stored element starts here.
    Start(C, Location, TagFlags),
    /// The element with the given location and key hash ends here.
    End(Location, u128, TagFlags),
    /// A compact cell tag.
    CellStart(CellTagMeta, Location, TagFlags),
}

/// The location that a tag carries.
pub open spec fn tag_location<C>(tag: Tag<C>) -> Location {
    match tag {
        Tag::Start(_, loc, _) => loc,
        Tag::End(loc, _, _) => loc,
        Tag::CellStart(_, loc, _) => loc,
    }
}

impl<C> Tag<C> {
    /// Access the location of the tag.
    pub fn location(&self) -> (loc: Location)
        ensures
            loc == tag_location(*self),
    {
        match self {
            Tag::Start(_, loc, _) => *loc,
            Tag::End(loc, _, _) => *loc,
            Tag::CellStart(_, loc, _) => *loc,
        }
    }
}

/// Holds a tag for a locatable element that was realized. Layouters pass
/// it through; the held element becomes available for introspection in the
/// next compiler iteration.
pub struct TagElem<C> {
    tag: Tag<C>,
    prepared: bool,
}

impl<C> TagElem<C> {
    /// The introspectable element's tag.
    pub closed spec fn held_tag(&self) -> Tag<C> {
        self.tag
    }

    /// The introspectable element's tag.
    pub fn tag(&self) -> (t: &Tag<C>)
        ensures
            *t == self.held_tag(),
    {
        &self.tag
    }

    /// Whether the element skips preparation.
    pub closed spec fn is_prepared(&self) -> bool {
        self.prepared
    }

    /// A packed tag element, which needs no preparation.
    pub fn packed(tag: Tag<C>) -> (e: Self)
        ensures
            e.held_tag() == tag,
            e.is_prepared(),
    {
        TagElem { tag, prepared: true }
    }
}

/// The table cell kind as a compact tag records it: header levels saturate
/// at 255, and data cells are recorded as automatic.
pub open spec fn normalized_kind(kind: Smart<TableCellKind>) -> Smart<TableCellKind> {
    match kind {
        Smart::Custom(TableCellKind::Header(level, scope)) => Smart::Custom(
            TableCellKind::Header(clamp(level as int, 255) as u32, scope),
        ),
        Smart::Custom(TableCellKind::Footer) => Smart::Custom(TableCellKind::Footer),
        _ => Smart::Auto,
    }
}

/// A table cell's kind survives the round trip through its compact tag,
/// up to saturation of the header level, for cells that are not repeated.
pub proof fn lemma_table_kind_round_trip(
    x: usize,
    y: usize,
    colspan: usize,
    rowspan: usize,
    kind: Smart<TableCellKind>,
)
    requires
        kind matches Smart::Custom(TableCellKind::Header(level, _)) ==> level >= 1,
    ensures
        to_table_cell_kind_spec(table_kind_spec(kind, false)) == normalized_kind(kind),
{
}

/// Every compact tag made for a table cell counts as a table cell tag, and
/// none made for a grid cell does, repeated or not.
pub proof fn lemma_table_tags_are_table(kind: Smart<TableCellKind>, is_repeated: bool)
    ensures
        is_table_kind(table_kind_spec(kind, is_repeated)),
        !is_table_kind(grid_kind_spec(is_repeated)),
{
}

} // verus!
