//! Tags around laid-out grid and table cells: which compact metadata a cell
//! is tagged with, the start and end tags, and how they are attached to the
//! frames that the cell's body was laid out into.

use vstd::prelude::*;
use crate::tag::{
    CellTagKind, CellTagMeta, grid_kind_spec, Location, Smart, TableCellKind, Tag, TagFlags, clamp,
    table_kind_spec,
};

verus! {

/// Where a laid-out cell comes from.
#[derive(Clone, Copy, Debug)]
pub enum CellSource {
    /// A table cell at the given position, of the given kind.
    Table { cell_x: usize, cell_y: usize, kind: Smart<TableCellKind> },
    /// A grid cell at the given position.
    Grid { cell_x: usize, cell_y: usize },
}

/// The flags of cell tags: introspectable and tagged.
pub open spec fn cell_flags() -> TagFlags {
    TagFlags { introspectable: true, tagged: true }
}

/// The compact metadata that a cell from `source` is tagged with.
pub open spec fn cell_meta_spec(
    source: CellSource,
    colspan: usize,
    rowspan: usize,
    is_repeated: bool,
) -> CellTagMeta {
    match source {
        CellSource::Table { cell_x, cell_y, kind } => CellTagMeta {
            x: clamp(cell_x as int, u16::MAX as int) as u16,
            y: clamp(cell_y as int, u32::MAX as int) as u32,
            colspan: clamp(colspan as int, u16::MAX as int) as u16,
            rowspan: clamp(rowspan as int, u16::MAX as int) as u16,
            kind: table_kind_spec(kind, is_repeated),
        },
        CellSource::Grid { cell_x, cell_y } => CellTagMeta {
            x: clamp(cell_x as int, u16::MAX as int) as u16,
            y: clamp(cell_y as int, u32::MAX as int) as u32,
            colspan: clamp(colspan as int, u16::MAX as int) as u16,
            rowspan: clamp(rowspan as int, u16::MAX as int) as u16,
            kind: grid_kind_spec(is_repeated),
        },
    }
}

/// The metadata of a cell carries its own position and spans, each on its
/// own: the column is the cell's column and the row the cell's row, each
/// saturated at the largest value its field holds (`u16::MAX` for the
/// column and the spans, `u32::MAX` for the row); a grid cell is a plain
/// or repeated grid cell.
pub proof fn lemma_cell_meta_position(
    source: CellSource,
    colspan: usize,
    rowspan: usize,
    is_repeated: bool,
)
    ensures
        ({
            let m = cell_meta_spec(source, colspan, rowspan, is_repeated);
            let (cx, cy) = match source {
                CellSource::Table { cell_x, cell_y, .. } => (cell_x, cell_y),
                CellSource::Grid { cell_x, cell_y } => (cell_x, cell_y),
            };
            &&& m.x as int == (if cx <= 65535 {
                cx as int
            } else {
                65535
            })
            &&& m.y as int == (if cy <= 4294967295 {
                cy as int
            } else {
                4294967295
            })
            &&& m.colspan as int == (if colspan <= 65535 {
                colspan as int
            } else {
                65535
            })
            &&& m.rowspan as int == (if rowspan <= 65535 {
                rowspan as int
            } else {
                65535
            })
            &&& (source is Grid ==> m.kind == (if is_repeated {
                CellTagKind::Repeated { in_grid: true }
            } else {
                CellTagKind::GridCell
            }))
        }),
{
}

/// The compact metadata that a cell is tagged with: table cells and grid
/// cells get tags, cells of no source get none.
pub fn cell_tag_meta(
    source: Option<CellSource>,
    colspan: usize,
    rowspan: usize,
    is_repeated: bool,
) -> (m: Option<CellTagMeta>)
    ensures
        m is Some <==> source is Some,
        source is Some ==> m->0 == cell_meta_spec(source->0, colspan, rowspan, is_repeated),
{
    match source {
        Some(CellSource::Table { cell_x, cell_y, kind }) => Some(
            CellTagMeta::table(cell_x, cell_y, colspan, rowspan, kind, is_repeated),
        ),
        Some(CellSource::Grid { cell_x, cell_y }) => Some(
            CellTagMeta::grid(cell_x, cell_y, colspan, rowspan, is_repeated),
        ),
        None => None,
    }
}

/// The tags of a cell: its location, the key hash of its metadata, and the
/// start tag that carries the metadata.
pub fn generate_cell_tags<C>(meta: CellTagMeta, key: u128, loc: Location) -> (tags: (
    Location,
    u128,
    Tag<C>,
))
    ensures
        tags.0 == loc,
        tags.1 == key,
        tags.2 == Tag::<C>::CellStart(meta, loc, cell_flags()),
{
    let flags = TagFlags { introspectable: true, tagged: true };
    (loc, key, Tag::CellStart(meta, loc, flags))
}

/// The end tag of a cell tagged at `loc` with metadata hash `key`.
pub fn cell_end_tag<C>(loc: Location, key: u128) -> (tag: Tag<C>)
    ensures
        tag == Tag::<C>::End(loc, key, cell_flags()),
{
    Tag::End(loc, key, TagFlags { introspectable: true, tagged: true })
}

/// How a cell's tags are attached to the frames of its body.
#[derive(Clone, Copy, Debug, PartialEq, Eq, Structural)]
pub enum TagPlacement {
    /// No tags, or no frame: the frames stay as they are.
    Untouched,
    /// One frame whose items are shared: it is replaced by a new frame of
    /// its size and kind holding the start tag, the old frame as a group,
    /// and the end tag.
    WrapInGroup,
    /// One frame: the start tag goes before its items, the end tag after.
    AroundItems,
    /// Several frames: each gets the cell's location as its parent, and
    /// both tags go before the items of the first.
    StartOfFirst,
}

/// How a cell's tags are attached to the `frames` frames of its body.
pub fn cell_tag_placement(has_tags: bool, frames: usize, shared_items: bool) -> (p: TagPlacement)
    ensures
        p == (if !has_tags || frames == 0 {
            TagPlacement::Untouched
        } else if frames == 1 {
            if shared_items {
                TagPlacement::WrapInGroup
            } else {
                TagPlacement::AroundItems
            }
        } else {
            TagPlacement::StartOfFirst
        }),
{
    if !has_tags || frames == 0 {
        TagPlacement::Untouched
    } else if frames == 1 {
        if shared_items {
            TagPlacement::WrapInGroup
        } else {
            TagPlacement::AroundItems
        }
    } else {
        TagPlacement::StartOfFirst
    }
}

} // verus!
