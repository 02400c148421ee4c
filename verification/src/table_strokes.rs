//! Border strokes of table cells for tagged PDF export.
//!
//! Stroke values are represented by ids: equal strokes have equal ids, as
//! in a table's list of unique strokes.

use vstd::prelude::*;

use std::collections::HashMap;

use rustc_hash::FxBuildHasher;

use crate::grid_cells::{CtxCell, GridCells, GridEntry, lemma_position_in_range};

verus! {

/// A value for each side of a cell.
#[derive(Clone, Copy, Debug, PartialEq, Eq, Structural)]
pub struct Sides<T> {
    pub left: T,
    pub top: T,
    pub right: T,
    pub bottom: T,
}

/// How strongly a stroke was asked for. Later variants win.
#[derive(Clone, Copy, Debug, PartialEq, Eq, Structural)]
pub enum StrokePriority {
    GridStroke,
    CellStroke,
    ExplicitLine,
}

/// The rank of a priority: a higher rank wins.
pub open spec fn priority_rank(p: StrokePriority) -> int {
    match p {
        StrokePriority::GridStroke => 0,
        StrokePriority::CellStroke => 1,
        StrokePriority::ExplicitLine => 2,
    }
}

fn priority_le(a: StrokePriority, b: StrokePriority) -> (r: bool)
    ensures
        r == (priority_rank(a) <= priority_rank(b)),
{
    let ra: u8 = match a {
        StrokePriority::GridStroke => 0,
        StrokePriority::CellStroke => 1,
        StrokePriority::ExplicitLine => 2,
    };
    let rb: u8 = match b {
        StrokePriority::GridStroke => 0,
        StrokePriority::CellStroke => 1,
        StrokePriority::ExplicitLine => 2,
    };
    ra <= rb
}

/// A stroke (or its absence) together with its priority.
#[derive(Clone, Copy, Debug, PartialEq, Eq, Structural)]
pub struct PrioritizedStroke {
    pub stroke: Option<u32>,
    pub priority: StrokePriority,
}

/// The stroke of one side of a grid cell: the stroke, and whether the cell
/// overrides the grid's stroke.
#[derive(Clone, Copy, Debug, PartialEq, Eq, Structural)]
pub struct SideStroke {
    pub stroke: Option<u32>,
    pub overridden: bool,
}

/// Whether a line is placed before or after its track.
#[derive(Clone, Copy, Debug, PartialEq, Eq, Structural)]
pub enum LinePosition {
    Before,
    After,
}

/// An explicit line of a table.
#[derive(Clone, Copy, Debug, PartialEq, Eq, Structural)]
pub struct Line {
    /// The track the line is placed at.
    pub index: usize,
    /// The first track the line spans.
    pub start: usize,
    /// The track where the line ends, if bounded (never zero).
    pub end: Option<usize>,
    /// Whether the line is before or after its track.
    pub position: LinePosition,
    /// The line's stroke.
    pub stroke: Option<u32>,
}

/// The direction of explicit lines.
#[derive(Clone, Copy, Debug, PartialEq, Eq, Structural)]
pub enum LineAxis {
    /// Horizontal lines: tracks are rows, and lines run along columns.
    Horizontal,
    /// Vertical lines: tracks are columns, and lines run along rows.
    Vertical,
}

/// The strokes of a table's layout.
pub struct StrokeMeta {
    /// The number of effective columns.
    pub effective_cols: usize,
    /// For each effective position, in row-major order, the stroke pattern
    /// of the grid cell there, if there is one.
    pub cell_strokes: Vec<Option<Sides<SideStroke>>>,
    /// Horizontal lines, grouped by row.
    pub hlines: Vec<Vec<Line>>,
    /// Vertical lines, grouped by column.
    pub vlines: Vec<Vec<Line>>,
}

/// The stroke pattern of the grid cell at effective position `(gx, gy)`.
pub open spec fn pattern_at(meta: StrokeMeta, gx: int, gy: int) -> Option<Sides<SideStroke>> {
    let k = gy * meta.effective_cols + gx;
    if 0 <= gx < meta.effective_cols && 0 <= k < meta.cell_strokes@.len() {
        meta.cell_strokes@[k]
    } else {
        None
    }
}

impl StrokeMeta {
    /// The stroke pattern of the grid cell at effective position `(gx, gy)`.
    pub fn cell(&self, gx: usize, gy: usize) -> (r: Option<Sides<SideStroke>>)
        ensures
            r == pattern_at(*self, gx as int, gy as int),
    {
        let _len = self.cell_strokes.len();
        if gx >= self.effective_cols {
            return None;
        }
        match gy.checked_mul(self.effective_cols) {
            None => None,
            Some(r) => match r.checked_add(gx) {
                None => None,
                Some(k) => {
                    if k < self.cell_strokes.len() {
                        self.cell_strokes[k]
                    } else {
                        None
                    }
                },
            },
        }
    }
}

/// The prioritized strokes of a cell with the given pattern.
pub open spec fn prioritized(p: Sides<SideStroke>) -> Sides<PrioritizedStroke> {
    Sides {
        left: prioritized_side(p.left),
        top: prioritized_side(p.top),
        right: prioritized_side(p.right),
        bottom: prioritized_side(p.bottom),
    }
}

/// The prioritized stroke of one side.
pub open spec fn prioritized_side(s: SideStroke) -> PrioritizedStroke {
    PrioritizedStroke {
        stroke: s.stroke,
        priority: if s.overridden {
            StrokePriority::CellStroke
        } else {
            StrokePriority::GridStroke
        },
    }
}

fn prioritized_side_exec(s: SideStroke) -> (r: PrioritizedStroke)
    ensures
        r == prioritized_side(s),
{
    PrioritizedStroke {
        stroke: s.stroke,
        priority: if s.overridden {
            StrokePriority::CellStroke
        } else {
            StrokePriority::GridStroke
        },
    }
}

/// No stroke, at grid priority, on every side.
pub open spec fn default_sides() -> Sides<PrioritizedStroke> {
    let s = PrioritizedStroke { stroke: None, priority: StrokePriority::GridStroke };
    Sides { left: s, top: s, right: s, bottom: s }
}

/// The strokes of a cell entry before explicit lines are placed: the
/// prioritized pattern of its grid cell, if it has one, else none.
pub open spec fn entry_strokes<T>(meta: StrokeMeta, has_gutter: bool, e: GridEntry<T>) -> Sides<PrioritizedStroke> {
    match e {
        GridEntry::Cell(c) => match pattern_at(
            meta,
            crate::table::to_effective_spec(has_gutter, c.x as int),
            crate::table::to_effective_spec(has_gutter, c.y as int),
        ) {
            Some(p) => prioritized(p),
            None => default_sides(),
        },
        _ => default_sides(),
    }
}

/// The strokes of all entries before explicit lines are placed.
pub open spec fn initial_strokes<T>(meta: StrokeMeta, has_gutter: bool, entries: Seq<GridEntry<T>>) -> Seq<
    Sides<PrioritizedStroke>,
> {
    Seq::new(entries.len(), |k: int| entry_strokes(meta, has_gutter, entries[k]))
}

/// Whether every cell of a map sits at the position of its own entry.
pub open spec fn cells_at_home<T>(m: GridCells<T>) -> bool {
    forall|k: int|
        0 <= k < m.entries_seq().len() && (#[trigger] m.entries_seq()[k]) is Cell ==> m.index_of(
            m.entries_seq()[k]->Cell_0.x as int,
            m.entries_seq()[k]->Cell_0.y as int,
        ) == k
}

/// A side of a cell.
#[derive(Clone, Copy, Debug, PartialEq, Eq, Structural)]
pub enum Side {
    Left,
    Top,
    Right,
    Bottom,
}

/// The value on one side.
pub open spec fn side_of<T>(s: Sides<T>, side: Side) -> T {
    match side {
        Side::Left => s.left,
        Side::Top => s.top,
        Side::Right => s.right,
        Side::Bottom => s.bottom,
    }
}

/// The sides with one side replaced.
pub open spec fn with_side<T>(s: Sides<T>, side: Side, v: T) -> Sides<T> {
    match side {
        Side::Left => Sides { left: v, ..s },
        Side::Top => Sides { top: v, ..s },
        Side::Right => Sides { right: v, ..s },
        Side::Bottom => Sides { bottom: v, ..s },
    }
}

fn get_side(s: Sides<PrioritizedStroke>, side: Side) -> (r: PrioritizedStroke)
    ensures
        r == side_of(s, side),
{
    match side {
        Side::Left => s.left,
        Side::Top => s.top,
        Side::Right => s.right,
        Side::Bottom => s.bottom,
    }
}

fn set_side(s: Sides<PrioritizedStroke>, side: Side, v: PrioritizedStroke) -> (r: Sides<
    PrioritizedStroke,
>)
    ensures
        r == with_side(s, side, v),
{
    match side {
        Side::Left => Sides { left: v, ..s },
        Side::Top => Sides { top: v, ..s },
        Side::Right => Sides { right: v, ..s },
        Side::Bottom => Sides { bottom: v, ..s },
    }
}

/// The strokes of all cells of a table, in row-major order. Only a cell's
/// own position is used; spanned positions keep the default.
pub struct StrokeGrid {
    strokes: Vec<Sides<PrioritizedStroke>>,
    width: usize,
}

impl StrokeGrid {
    /// The strokes in row-major order.
    pub closed spec fn strokes_seq(&self) -> Seq<Sides<PrioritizedStroke>> {
        self.strokes@
    }

    /// The number of columns.
    pub closed spec fn cols(&self) -> nat {
        self.width as nat
    }

    /// Build the stroke grid of a table: each cell takes the stroke pattern
    /// of its grid cell, every other position none.
    pub fn from_grid<T>(
        meta: &StrokeMeta,
        has_gutter: bool,
        cells: &GridCells<T>,
        width: u32,
        height: u32,
    ) -> (g: StrokeGrid)
        requires
            cells.wf(),
            cells_at_home(*cells),
            cells.cols() == width,
            cells.entries_seq().len() == width * height,
            has_gutter ==> 2 * cells.entries_seq().len() <= usize::MAX,
        ensures
            g.cols() == width,
            g.strokes_seq() == initial_strokes(*meta, has_gutter, cells.entries_seq()),
            g.strokes_seq().len() == width * height,
            forall|k: int|
                0 <= k < width * height ==> #[trigger] g.strokes_seq()[k] == match cells.entries_seq()[k] {
                    GridEntry::Cell(c) => match pattern_at(
                        *meta,
                        crate::table::to_effective_spec(has_gutter, c.x as int),
                        crate::table::to_effective_spec(has_gutter, c.y as int),
                    ) {
                        Some(p) => prioritized(p),
                        None => default_sides(),
                    },
                    _ => default_sides(),
                },
    {
        let w = width as usize;
        let n = w * (height as usize);
        let d = PrioritizedStroke { stroke: None, priority: StrokePriority::GridStroke };
        let entries = cells.iter();
        let mut strokes: Vec<Sides<PrioritizedStroke>> = Vec::new();
        let mut k: usize = 0;
        while k < n
            invariant
                n == width * height,
                entries@ == cells.entries_seq(),
                entries@.len() == n,
                cells_at_home(*cells),
                cells.cols() == width,
                has_gutter ==> 2 * entries@.len() <= usize::MAX,
                d == default_sides().left,
                k <= n,
                strokes@.len() == k,
                forall|m: int|
                    0 <= m < k ==> #[trigger] strokes@[m] == match cells.entries_seq()[m] {
                        GridEntry::Cell(c) => match pattern_at(
                            *meta,
                            crate::table::to_effective_spec(has_gutter, c.x as int),
                            crate::table::to_effective_spec(has_gutter, c.y as int),
                        ) {
                            Some(p) => prioritized(p),
                            None => default_sides(),
                        },
                        _ => default_sides(),
                    },
            decreases n - k,
        {
            let sides = match entries[k].as_cell() {
                Some(c) => {
                    proof {
                        assert(cells.index_of(c.x as int, c.y as int) == k);
                        assert(c.x <= k && c.y <= k) by {
                            assert(0 <= c.y * width) by (nonlinear_arith);
                            if width > 0 {
                                assert(c.y <= c.y * width) by (nonlinear_arith)
                                    requires width > 0, c.y >= 0;
                            } else {
                                assert(c.y * width == 0);
                            }
                        }
                        assert(c.y < height) by {
                            assert(c.y * width + c.x == k);
                            if c.y >= height {
                                assert(c.y * width >= height * width) by (nonlinear_arith)
                                    requires c.y >= height, width >= 0;
                            }
                        }
                    }
                    let gx: usize = if has_gutter {
                        2 * (c.x as usize)
                    } else {
                        c.x as usize
                    };
                    let gy: usize = if has_gutter {
                        2 * (c.y as usize)
                    } else {
                        c.y as usize
                    };
                    match meta.cell(gx, gy) {
                        Some(p) => Sides {
                            left: prioritized_side_exec(p.left),
                            top: prioritized_side_exec(p.top),
                            right: prioritized_side_exec(p.right),
                            bottom: prioritized_side_exec(p.bottom),
                        },
                        None => Sides { left: d, top: d, right: d, bottom: d },
                    }
                },
                None => Sides { left: d, top: d, right: d, bottom: d },
            };
            strokes.push(sides);
            k = k + 1;
        }
        proof {
            assert(strokes@ =~= initial_strokes(*meta, has_gutter, cells.entries_seq()));
        }
        StrokeGrid { strokes, width: w }
    }

    /// Replace the strokes at row-major index `k`.
    fn set(&mut self, k: usize, v: Sides<PrioritizedStroke>)
        requires
            k < old(self).strokes_seq().len(),
        ensures
            final(self).cols() == old(self).cols(),
            final(self).strokes_seq() == old(self).strokes_seq().update(k as int, v),
    {
        self.strokes.set(k, v);
    }

    /// The strokes of the cell at `(x, y)`.
    pub fn get(&self, x: u32, y: u32) -> (s: Sides<PrioritizedStroke>)
        requires
            y * self.cols() + x < self.strokes_seq().len(),
        ensures
            s == self.strokes_seq()[y * self.cols() + x],
    {
        proof {
            assert(0 <= y * self.cols()) by (nonlinear_arith);
        }
        let _len = self.strokes.len();
        self.strokes[y as usize * self.width + x as usize]
    }

    /// The strokes of position `(x, y)`, to change in place; the other
    /// positions stay as they are.
    pub fn get_mut(&mut self, x: u32, y: u32) -> (s: &mut Sides<PrioritizedStroke>)
        requires
            y * old(self).cols() + x < old(self).strokes_seq().len(),
        ensures
            *s == old(self).strokes_seq()[y * old(self).cols() + x],
            final(self).cols() == old(self).cols(),
            final(self).strokes_seq() == old(self).strokes_seq().update(
                y * old(self).cols() + x,
                *final(s),
            ),
    {
        proof {
            assert(0 <= y * self.cols()) by (nonlinear_arith);
        }
        let _len = self.strokes.len();
        &mut self.strokes[y as usize * self.width + x as usize]
    }
}

/// The strokes after setting `side` of the cell that covers `(x, y)` to
/// `v`; unchanged if no cell covers it.
pub open spec fn place_at<T>(
    st: Seq<Sides<PrioritizedStroke>>,
    cells: GridCells<T>,
    x: int,
    y: int,
    side: Side,
    v: PrioritizedStroke,
) -> Seq<Sides<PrioritizedStroke>> {
    match cells.resolve_at_spec(x, y) {
        Some(c) => {
            let k = cells.index_of(c.x as int, c.y as int);
            st.update(k, with_side(st[k], side, v))
        },
        None => st,
    }
}

/// The position of a line after fixing lines before the first or after the
/// last track.
pub open spec fn line_position(line: Line, block_end: u32) -> LinePosition {
    if line.index == 0 {
        LinePosition::After
    } else if line.index + 1 == block_end {
        LinePosition::Before
    } else {
        line.position
    }
}

/// The track whose cells a line borders.
pub open spec fn line_block(line: Line, block_end: u32) -> u32 {
    match line_position(line, block_end) {
        LinePosition::Before => (line.index - 1) as u32,
        LinePosition::After => line.index as u32,
    }
}

/// Where a line ends, at most at `inline_end`.
pub open spec fn line_end(line: Line, inline_end: u32) -> u32 {
    let e = match line.end {
        Some(n) => n as u32,
        None => inline_end,
    };
    if e <= inline_end { e } else { inline_end }
}

/// The cell side that a line sets.
pub open spec fn line_side(axis: LineAxis, pos: LinePosition) -> Side {
    match (axis, pos) {
        (LineAxis::Horizontal, LinePosition::Before) => Side::Bottom,
        (LineAxis::Horizontal, LinePosition::After) => Side::Top,
        (LineAxis::Vertical, LinePosition::Before) => Side::Right,
        (LineAxis::Vertical, LinePosition::After) => Side::Left,
    }
}

/// The grid position of a line's point along a track.
pub open spec fn line_point(axis: LineAxis, block: int, inline: int) -> (int, int) {
    match axis {
        LineAxis::Horizontal => (inline, block),
        LineAxis::Vertical => (block, inline),
    }
}

/// The strokes after placing the points `lo..hi` of a line.
pub open spec fn place_points<T>(
    st: Seq<Sides<PrioritizedStroke>>,
    cells: GridCells<T>,
    line: Line,
    block_end: u32,
    axis: LineAxis,
    lo: int,
    hi: int,
) -> Seq<Sides<PrioritizedStroke>>
    decreases hi - lo,
{
    if hi <= lo {
        st
    } else {
        let prev = place_points(st, cells, line, block_end, axis, lo, hi - 1);
        let pos = line_position(line, block_end);
        let p = line_point(axis, line_block(line, block_end) as int, hi - 1);
        place_at(
            prev,
            cells,
            p.0,
            p.1,
            line_side(axis, pos),
            PrioritizedStroke { stroke: line.stroke, priority: StrokePriority::ExplicitLine },
        )
    }
}

/// The strokes after placing one line.
pub open spec fn place_line<T>(
    st: Seq<Sides<PrioritizedStroke>>,
    cells: GridCells<T>,
    line: Line,
    block_end: u32,
    inline_end: u32,
    axis: LineAxis,
) -> Seq<Sides<PrioritizedStroke>> {
    place_points(
        st,
        cells,
        line,
        block_end,
        axis,
        line.start as u32 as int,
        line_end(line, inline_end) as int,
    )
}

/// The strokes after placing the first `n` lines of a group.
pub open spec fn place_group<T>(
    st: Seq<Sides<PrioritizedStroke>>,
    cells: GridCells<T>,
    group: Seq<Line>,
    n: int,
    block_end: u32,
    inline_end: u32,
    axis: LineAxis,
) -> Seq<Sides<PrioritizedStroke>>
    decreases n,
{
    if n <= 0 {
        st
    } else {
        place_line(
            place_group(st, cells, group, n - 1, block_end, inline_end, axis),
            cells,
            group[n - 1],
            block_end,
            inline_end,
            axis,
        )
    }
}

/// The strokes after placing the lines of the first `g` groups.
pub open spec fn place_groups<T>(
    st: Seq<Sides<PrioritizedStroke>>,
    cells: GridCells<T>,
    groups: Seq<Vec<Line>>,
    g: int,
    block_end: u32,
    inline_end: u32,
    axis: LineAxis,
) -> Seq<Sides<PrioritizedStroke>>
    decreases g,
{
    if g <= 0 {
        st
    } else {
        let prev = place_groups(st, cells, groups, g - 1, block_end, inline_end, axis);
        place_group(
            prev,
            cells,
            groups[g - 1]@,
            groups[g - 1]@.len() as int,
            block_end,
            inline_end,
            axis,
        )
    }
}

/// Whether every line of the groups borders a track before `block_end` and
/// has an index below the largest `usize`.
pub open spec fn lines_in_range(groups: Seq<Vec<Line>>, block_end: u32) -> bool {
    forall|g: int, l: int|
        0 <= g < groups.len() && 0 <= l < groups[g]@.len() ==> {
            let line = #[trigger] groups[g]@[l];
            &&& line.index < usize::MAX
            &&& line_block(line, block_end) < block_end
        }
}

/// Whether the cell map and the stroke grid fit: same width and length, and
/// every cell sits at its own position.
pub open spec fn grid_fits<T>(st: Seq<Sides<PrioritizedStroke>>, width: nat, cells: GridCells<T>) -> bool {
    &&& cells.wf()
    &&& cells_at_home(cells)
    &&& cells.cols() == width
    &&& width > 0
    &&& st.len() == cells.entries_seq().len()
}

/// The dimensions (block_end, inline_end) that lines of an axis run in.
pub open spec fn axis_dims<T>(cells: GridCells<T>, axis: LineAxis, block_end: u32, inline_end: u32) -> bool {
    match axis {
        LineAxis::Horizontal => block_end <= cells.rows_count() && inline_end <= cells.cols(),
        LineAxis::Vertical => block_end <= cells.cols() && inline_end <= cells.rows_count(),
    }
}

/// Which sides of two neighboring cells meet.
#[derive(Clone, Copy, Debug, PartialEq, Eq, Structural)]
pub enum Adjacency {
    /// The right side of the first cell meets the left side of the second.
    Horizontal,
    /// The bottom side of the first cell meets the top side of the second.
    Vertical,
}

/// The sides of the first and second cell that meet.
pub open spec fn meeting_sides(adj: Adjacency) -> (Side, Side) {
    match adj {
        Adjacency::Horizontal => (Side::Right, Side::Left),
        Adjacency::Vertical => (Side::Bottom, Side::Top),
    }
}

/// The strokes after resolving the meeting sides of the cells covering
/// `a` and `b`: if they are different cells whose meeting strokes differ,
/// the side with the lower (or equal) priority takes the other's stroke.
pub open spec fn prioritize_at<T>(
    st: Seq<Sides<PrioritizedStroke>>,
    cells: GridCells<T>,
    a: (int, int),
    b: (int, int),
    adj: Adjacency,
) -> Seq<Sides<PrioritizedStroke>> {
    match (cells.resolve_at_spec(a.0, a.1), cells.resolve_at_spec(b.0, b.1)) {
        (Some(ca), Some(cb)) => {
            let ia = cells.index_of(ca.x as int, ca.y as int);
            let ib = cells.index_of(cb.x as int, cb.y as int);
            let (side_a, side_b) = meeting_sides(adj);
            let sa = side_of(st[ia], side_a);
            let sb = side_of(st[ib], side_b);
            if ia == ib || sa.stroke == sb.stroke {
                st
            } else if priority_rank(sa.priority) <= priority_rank(sb.priority) {
                st.update(ia, with_side(st[ia], side_a, PrioritizedStroke { stroke: sb.stroke, ..sa }))
            } else {
                st.update(ib, with_side(st[ib], side_b, PrioritizedStroke { stroke: sa.stroke, ..sb }))
            }
        },
        _ => st,
    }
}

/// The strokes after resolving the first `n` horizontal neighbors of row
/// `y`.
pub open spec fn sweep_row<T>(st: Seq<Sides<PrioritizedStroke>>, cells: GridCells<T>, y: int, n: int) -> Seq<
    Sides<PrioritizedStroke>,
>
    decreases n,
{
    if n <= 0 {
        st
    } else {
        prioritize_at(
            sweep_row(st, cells, y, n - 1),
            cells,
            (n - 1, y),
            (n, y),
            Adjacency::Horizontal,
        )
    }
}

/// The strokes after resolving horizontal neighbors in the first `rows`
/// rows, each with `n` neighbor pairs.
pub open spec fn sweep_rows<T>(
    st: Seq<Sides<PrioritizedStroke>>,
    cells: GridCells<T>,
    rows: int,
    n: int,
) -> Seq<Sides<PrioritizedStroke>>
    decreases rows,
{
    if rows <= 0 {
        st
    } else {
        sweep_row(sweep_rows(st, cells, rows - 1, n), cells, rows - 1, n)
    }
}

/// The strokes after resolving the first `n` vertical neighbors of column
/// `x`.
pub open spec fn sweep_col<T>(st: Seq<Sides<PrioritizedStroke>>, cells: GridCells<T>, x: int, n: int) -> Seq<
    Sides<PrioritizedStroke>,
>
    decreases n,
{
    if n <= 0 {
        st
    } else {
        prioritize_at(
            sweep_col(st, cells, x, n - 1),
            cells,
            (x, n - 1),
            (x, n),
            Adjacency::Vertical,
        )
    }
}

/// The strokes after resolving vertical neighbors in the first `cols`
/// columns, each with `n` neighbor pairs.
pub open spec fn sweep_cols<T>(
    st: Seq<Sides<PrioritizedStroke>>,
    cells: GridCells<T>,
    cols: int,
    n: int,
) -> Seq<Sides<PrioritizedStroke>>
    decreases cols,
{
    if cols <= 0 {
        st
    } else {
        sweep_col(sweep_cols(st, cells, cols - 1, n), cells, cols - 1, n)
    }
}

impl StrokeGrid {
    /// Remove contesting strokes where the cells covering `a` and `b` meet.
    fn prioritize<T>(&mut self, cells: &GridCells<T>, a: (u32, u32), b: (u32, u32), adj: Adjacency)
        requires
            grid_fits(old(self).strokes_seq(), old(self).cols(), *cells),
            a.0 < cells.cols(),
            a.1 < cells.rows_count(),
            b.0 < cells.cols(),
            b.1 < cells.rows_count(),
        ensures
            final(self).cols() == old(self).cols(),
            final(self).strokes_seq().len() == old(self).strokes_seq().len(),
            final(self).strokes_seq() == prioritize_at(
                old(self).strokes_seq(),
                *cells,
                (a.0 as int, a.1 as int),
                (b.0 as int, b.1 as int),
                adj,
            ),
    {
        proof {
            lemma_position_in_range(*cells, a.0 as int, a.1 as int);
            lemma_position_in_range(*cells, b.0 as int, b.1 as int);
        }
        let ca = match cells.resolve_at(a.0, a.1) {
            Some(c) => c,
            None => return ,
        };
        let cb = match cells.resolve_at(b.0, b.1) {
            Some(c) => c,
            None => return ,
        };
        proof {
            let m = *cells;
            let ka = m.index_of(a.0 as int, a.1 as int);
            let oa = match m.entries_seq()[ka] {
                GridEntry::Spanned(p) => p as int,
                _ => ka,
            };
            assert(m.entries_seq()[oa] == GridEntry::Cell(*ca));
            let kb = m.index_of(b.0 as int, b.1 as int);
            let ob = match m.entries_seq()[kb] {
                GridEntry::Spanned(p) => p as int,
                _ => kb,
            };
            assert(m.entries_seq()[ob] == GridEntry::Cell(*cb));
            assert(0 <= ca.y * m.cols()) by (nonlinear_arith);
            assert(0 <= cb.y * m.cols()) by (nonlinear_arith);
        }
        let idx_a = ca.y as usize * self.width + ca.x as usize;
        let idx_b = cb.y as usize * self.width + cb.x as usize;
        if idx_a == idx_b {
            return ;
        }
        let (side_a, side_b) = match adj {
            Adjacency::Horizontal => (Side::Right, Side::Left),
            Adjacency::Vertical => (Side::Bottom, Side::Top),
        };
        let sa_all = self.strokes[idx_a];
        let sb_all = self.strokes[idx_b];
        let sa = get_side(sa_all, side_a);
        let sb = get_side(sb_all, side_b);
        if sa.stroke != sb.stroke {
            if priority_le(sa.priority, sb.priority) {
                let v = PrioritizedStroke { stroke: sb.stroke, priority: sa.priority };
                self.set(idx_a, set_side(sa_all, side_a, v));
            } else {
                let v = PrioritizedStroke { stroke: sa.stroke, priority: sb.priority };
                self.set(idx_b, set_side(sb_all, side_b, v));
            }
        }
    }

    /// Remove overlapping border strokes between neighboring cells: first
    /// between horizontal neighbors row by row, then between vertical
    /// neighbors column by column.
    pub fn remove_overlaps<T>(&mut self, cells: &GridCells<T>, width: u32, height: u32)
        requires
            grid_fits(old(self).strokes_seq(), old(self).cols(), *cells),
            width <= cells.cols(),
            height <= cells.rows_count(),
        ensures
            final(self).cols() == old(self).cols(),
            final(self).strokes_seq().len() == old(self).strokes_seq().len(),
            final(self).strokes_seq() == sweep_cols(
                sweep_rows(
                    old(self).strokes_seq(),
                    *cells,
                    height as int,
                    if width == 0 { 0 } else { width - 1 },
                ),
                *cells,
                width as int,
                if height == 0 { 0 } else { height - 1 },
            ),
    {
        let nw: u32 = if width == 0 {
            0
        } else {
            width - 1
        };
        let nh: u32 = if height == 0 {
            0
        } else {
            height - 1
        };
        let mut y: u32 = 0;
        while y < height
            invariant
                y <= height,
                width <= cells.cols(),
                height <= cells.rows_count(),
                nw == (if width == 0 { 0 } else { width - 1 }),
                grid_fits(self.strokes_seq(), self.cols(), *cells),
                self.cols() == old(self).cols(),
                self.strokes_seq() == sweep_rows(old(self).strokes_seq(), *cells, y as int, nw as int),
            decreases height - y,
        {
            let ghost st_y = self.strokes_seq();
            let mut x: u32 = 0;
            while x < nw
                invariant
                    y < height,
                    x <= nw,
                    width <= cells.cols(),
                    height <= cells.rows_count(),
                    nw == (if width == 0 { 0 } else { width - 1 }),
                    grid_fits(self.strokes_seq(), self.cols(), *cells),
                    self.cols() == old(self).cols(),
                    st_y == sweep_rows(old(self).strokes_seq(), *cells, y as int, nw as int),
                    self.strokes_seq() == sweep_row(st_y, *cells, y as int, x as int),
                decreases nw - x,
            {
                self.prioritize(cells, (x, y), (x + 1, y), Adjacency::Horizontal);
                x = x + 1;
            }
            y = y + 1;
        }
        let ghost st_rows = self.strokes_seq();
        let mut x: u32 = 0;
        while x < width
            invariant
                x <= width,
                width <= cells.cols(),
                height <= cells.rows_count(),
                nh == (if height == 0 { 0 } else { height - 1 }),
                grid_fits(self.strokes_seq(), self.cols(), *cells),
                self.cols() == old(self).cols(),
                self.strokes_seq() == sweep_cols(st_rows, *cells, x as int, nh as int),
            decreases width - x,
        {
            let ghost st_x = self.strokes_seq();
            let mut y: u32 = 0;
            while y < nh
                invariant
                    x < width,
                    y <= nh,
                    width <= cells.cols(),
                    height <= cells.rows_count(),
                    nh == (if height == 0 { 0 } else { height - 1 }),
                    grid_fits(self.strokes_seq(), self.cols(), *cells),
                    self.cols() == old(self).cols(),
                    st_x == sweep_cols(st_rows, *cells, x as int, nh as int),
                    self.strokes_seq() == sweep_col(st_x, *cells, x as int, y as int),
                decreases nh - y,
            {
                self.prioritize(cells, (x, y), (x, y + 1), Adjacency::Vertical);
                y = y + 1;
            }
            x = x + 1;
        }
    }

    /// Set `side` of the cell that covers `(x, y)`, if any.
    fn place<T>(&mut self, cells: &GridCells<T>, x: u32, y: u32, side: Side, v: PrioritizedStroke)
        requires
            grid_fits(old(self).strokes_seq(), old(self).cols(), *cells),
            x < cells.cols(),
            y < cells.rows_count(),
        ensures
            final(self).cols() == old(self).cols(),
            final(self).strokes_seq().len() == old(self).strokes_seq().len(),
            final(self).strokes_seq() == place_at(
                old(self).strokes_seq(),
                *cells,
                x as int,
                y as int,
                side,
                v,
            ),
    {
        proof {
            lemma_position_in_range(*cells, x as int, y as int);
        }
        match cells.resolve_at(x, y) {
            Some(c) => {
                proof {
                    let m = *cells;
                    let k0 = m.index_of(x as int, y as int);
                    let owner = match m.entries_seq()[k0] {
                        GridEntry::Spanned(p) => p as int,
                        _ => k0,
                    };
                    assert(m.entries_seq()[owner] == GridEntry::Cell(*c));
                    assert(m.index_of(c.x as int, c.y as int) == owner);
                    assert(0 <= c.y * m.cols()) by (nonlinear_arith);
                }
                let k = c.y as usize * self.width + c.x as usize;
                let cur = self.strokes[k];
                let new = set_side(cur, side, v);
                self.set(k, new);
            },
            None => {},
        }
    }

    /// Place explicit lines: every point of a line sets the line's side of
    /// the cell that covers it to the line's stroke at explicit priority.
    /// A line at the first track is placed after it, and one at the last
    /// track before it.
    pub fn place_explicit_lines<T>(
        &mut self,
        cells: &GridCells<T>,
        lines: &Vec<Vec<Line>>,
        block_end: u32,
        inline_end: u32,
        axis: LineAxis,
    )
        requires
            grid_fits(old(self).strokes_seq(), old(self).cols(), *cells),
            axis_dims(*cells, axis, block_end, inline_end),
            lines_in_range(lines@, block_end),
        ensures
            final(self).cols() == old(self).cols(),
            final(self).strokes_seq().len() == old(self).strokes_seq().len(),
            final(self).strokes_seq() == place_groups(
                old(self).strokes_seq(),
                *cells,
                lines@,
                lines@.len() as int,
                block_end,
                inline_end,
                axis,
            ),
    {
        let mut g: usize = 0;
        while g < lines.len()
            invariant
                g <= lines@.len(),
                grid_fits(self.strokes_seq(), self.cols(), *cells),
                self.cols() == old(self).cols(),
                axis_dims(*cells, axis, block_end, inline_end),
                lines_in_range(lines@, block_end),
                self.strokes_seq() == place_groups(
                    old(self).strokes_seq(),
                    *cells,
                    lines@,
                    g as int,
                    block_end,
                    inline_end,
                    axis,
                ),
            decreases lines@.len() - g,
        {
            let group = &lines[g];
            let ghost st_g = self.strokes_seq();
            let mut l: usize = 0;
            while l < group.len()
                invariant
                    g < lines@.len(),
                    group@ == lines@[g as int]@,
                    l <= group@.len(),
                    grid_fits(self.strokes_seq(), self.cols(), *cells),
                    self.cols() == old(self).cols(),
                    axis_dims(*cells, axis, block_end, inline_end),
                    lines_in_range(lines@, block_end),
                    self.strokes_seq() == place_group(
                        st_g,
                        *cells,
                        group@,
                        l as int,
                        block_end,
                        inline_end,
                        axis,
                    ),
                decreases group@.len() - l,
            {
                let line = group[l];
                proof {
                    assert(lines@[g as int]@[l as int] == line);
                }
                let end0: u32 = match line.end {
                    Some(n) => n as u32,
                    None => inline_end,
                };
                let end = if end0 <= inline_end {
                    end0
                } else {
                    inline_end
                };
                let pos = if line.index == 0 {
                    LinePosition::After
                } else if line.index + 1 == block_end as usize {
                    LinePosition::Before
                } else {
                    line.position
                };
                let block_idx: u32 = match pos {
                    LinePosition::Before => (line.index - 1) as u32,
                    LinePosition::After => line.index as u32,
                };
                let side = match (axis, pos) {
                    (LineAxis::Horizontal, LinePosition::Before) => Side::Bottom,
                    (LineAxis::Horizontal, LinePosition::After) => Side::Top,
                    (LineAxis::Vertical, LinePosition::Before) => Side::Right,
                    (LineAxis::Vertical, LinePosition::After) => Side::Left,
                };
                let explicit = PrioritizedStroke {
                    stroke: line.stroke,
                    priority: StrokePriority::ExplicitLine,
                };
                let ghost st_l = self.strokes_seq();
                let start = line.start as u32;
                let mut i = start;
                while i < end
                    invariant
                        start <= i,
                        i <= end || start > end,
                        start > end ==> i == start,
                        end <= inline_end,
                        block_idx == line_block(line, block_end),
                        block_idx < block_end,
                        pos == line_position(line, block_end),
                        side == line_side(axis, pos),
                        explicit == (PrioritizedStroke {
                            stroke: line.stroke,
                            priority: StrokePriority::ExplicitLine,
                        }),
                        end == line_end(line, inline_end),
                        start == line.start as u32,
                        l < group@.len(),
                        line == group@[l as int],
                        st_l == place_group(
                            st_g,
                            *cells,
                            group@,
                            l as int,
                            block_end,
                            inline_end,
                            axis,
                        ),
                        grid_fits(self.strokes_seq(), self.cols(), *cells),
                        self.cols() == old(self).cols(),
                        axis_dims(*cells, axis, block_end, inline_end),
                        self.strokes_seq() == place_points(
                            st_l,
                            *cells,
                            line,
                            block_end,
                            axis,
                            start as int,
                            i as int,
                        ),
                    decreases end - i,
                {
                    let (x, y) = match axis {
                        LineAxis::Horizontal => (i, block_idx),
                        LineAxis::Vertical => (block_idx, i),
                    };
                    self.place(cells, x, y, side, explicit);
                    i = i + 1;
                }
                proof {
                    if start > end {
                        assert(place_points(st_l, *cells, line, block_end, axis, start as int, end as int) == st_l);
                        assert(place_points(st_l, *cells, line, block_end, axis, start as int, i as int) == st_l);
                    } else {
                        assert(i == end);
                    }
                    assert(self.strokes_seq() == place_line(st_l, *cells, line, block_end, inline_end, axis));
                    assert(place_group(st_g, *cells, group@, l + 1, block_end, inline_end, axis)
                        == place_line(st_l, *cells, group@[l as int], block_end, inline_end, axis));
                }
                l = l + 1;
            }
            g = g + 1;
        }
    }
}

/// The hasher of the maps that count strokes.
#[verifier::external_type_specification]
#[verifier::external_body]
pub struct ExFxBuildHasher(FxBuildHasher);

/// `HashMap::get` on a map that counts stroke keys, with the count copied
/// out: the count stored for `key`, if any.
#[verifier::external_body]
fn tally_get(m: &HashMap<u64, usize, FxBuildHasher>, key: u64) -> (r: Option<usize>)
    ensures
        r == (if m@.contains_key(key) {
            Some(m@[key])
        } else {
            None
        }),
{
    m.get(&key).copied()
}

/// `HashMap::insert` on a map that counts stroke keys: `key` then maps to
/// `count`, and every other key is unchanged.
#[verifier::external_body]
fn tally_insert(m: &mut HashMap<u64, usize, FxBuildHasher>, key: u64, count: usize)
    ensures
        final(m)@ == old(m)@.insert(key, count),
        final(m)@.dom().finite(),
{
    m.insert(key, count);
}

/// `HashMap::len` on a map that counts stroke keys: the number of keys.
#[verifier::external_body]
fn tally_len(m: &HashMap<u64, usize, FxBuildHasher>) -> (n: usize)
    ensures
        n == m@.len(),
{
    m.len()
}

/// `HashMap::iter` on a map that counts stroke keys, each entry copied out:
/// every key with its count, each key once, in the map's iteration order.
#[verifier::external_body]
fn tally_entries(m: &HashMap<u64, usize, FxBuildHasher>) -> (r: Vec<(u64, usize)>)
    ensures
        r@.len() == m@.len(),
        forall|i: int| 0 <= i < r@.len() ==> #[trigger] m@.contains_key(r@[i].0) && m@[r@[i].0] == r@[i].1,
        forall|i: int, j: int| 0 <= i < j < r@.len() ==> #[trigger] r@[i].0 != #[trigger] r@[j].0,
        forall|k: u64| #[trigger] m@.contains_key(k) ==> exists|i: int| 0 <= i < r@.len() && r@[i].0 == k,
{
    m.iter().map(|(k, v)| (*k, *v)).collect()
}

/// The key under which a stroke is counted: 0 for no stroke, else the
/// stroke id plus one.
pub open spec fn stroke_key(s: Option<u32>) -> u64 {
    match s {
        None => 0,
        Some(id) => (id as int + 1) as u64,
    }
}

/// The stroke counted under a key.
pub open spec fn key_stroke(k: u64) -> Option<u32> {
    if k == 0 { None } else { Some((k - 1) as u32) }
}

/// The keys of the four strokes of each cell, in row-major order, each
/// cell's sides as left, top, right, bottom.
pub open spec fn stroke_keys<T>(st: Seq<Sides<PrioritizedStroke>>, entries: Seq<GridEntry<T>>, n: int) -> Seq<u64>
    decreases n,
{
    if n <= 0 {
        Seq::empty()
    } else {
        let prev = stroke_keys(st, entries, n - 1);
        if entries[n - 1] is Cell {
            let s = st[n - 1];
            prev + seq![
                stroke_key(s.left.stroke),
                stroke_key(s.top.stroke),
                stroke_key(s.right.stroke),
                stroke_key(s.bottom.stroke),
            ]
        } else {
            prev
        }
    }
}

/// How often `k` occurs in `keys`.
pub open spec fn count_of(keys: Seq<u64>, k: u64) -> nat
    decreases keys.len(),
{
    if keys.len() == 0 {
        0
    } else {
        count_of(keys.drop_last(), k) + if keys.last() == k { 1nat } else { 0nat }
    }
}

proof fn lemma_count_push(keys: Seq<u64>, x: u64, k: u64)
    ensures
        count_of(keys.push(x), k) == count_of(keys, k) + if x == k { 1nat } else { 0nat },
{
    assert(keys.push(x).drop_last() =~= keys);
}

proof fn lemma_count_positive(keys: Seq<u64>, k: u64)
    ensures
        count_of(keys, k) > 0 <==> keys.contains(k),
        count_of(keys, k) <= keys.len(),
    decreases keys.len(),
{
    if keys.len() > 0 {
        lemma_count_positive(keys.drop_last(), k);
        if keys.last() == k {
            assert(keys[keys.len() - 1] == k);
        }
        if keys.drop_last().contains(k) {
            let i = choose|i: int| 0 <= i < keys.drop_last().len() && keys.drop_last()[i] == k;
            assert(keys[i] == k);
        }
        if keys.contains(k) && keys.last() != k {
            let i = choose|i: int| 0 <= i < keys.len() && keys[i] == k;
            assert(keys.drop_last()[i] == k);
        }
    }
}

proof fn lemma_distinct_keys(keys: Seq<u64>, dom: Set<u64>)
    requires
        dom.finite(),
        forall|key: u64| #[trigger] dom.contains(key) <==> count_of(keys, key) > 0,
    ensures
        (dom.len() == 1) == all_same(keys),
{
    if all_same(keys) {
        let k0 = keys[0];
        assert forall|key: u64| dom.contains(key) <==> #[trigger] set![k0].contains(key) by {
            lemma_count_positive(keys, key);
            if dom.contains(key) {
                let i = choose|i: int| 0 <= i < keys.len() && keys[i] == key;
                assert(keys[i] == k0);
            }
            if key == k0 {
                assert(keys.contains(k0)) by {
                    assert(keys[0] == k0);
                }
            }
        }
        assert(dom =~= set![k0]);
    }
    if dom.len() == 1 {
        if keys.len() == 0 {
            assert forall|key: u64| !dom.contains(key) by {
                lemma_count_positive(keys, key);
            }
            assert(dom =~= Set::<u64>::empty());
        } else {
            let k0 = keys[0];
            lemma_count_positive(keys, k0);
            assert(keys.contains(k0)) by {
                assert(keys[0] == k0);
            }
            assert forall|i: int| 0 <= i < keys.len() implies #[trigger] keys[i] == k0 by {
                let ki = keys[i];
                lemma_count_positive(keys, ki);
                assert(keys.contains(ki));
                if ki != k0 {
                    let two = set![k0, ki];
                    assert(two.subset_of(dom));
                    vstd::set_lib::lemma_len_subset(two, dom);
                    assert(two.len() == 2) by {
                        assert(set![k0].len() == 1);
                        assert(!set![k0].contains(ki));
                    }
                }
            }
        }
    }
}

/// Whether a counting map holds the count of every key of `keys`, and no
/// other key.
pub open spec fn represents(m: Map<u64, usize>, keys: Seq<u64>) -> bool {
    &&& forall|key: u64| #[trigger] m.contains_key(key) <==> count_of(keys, key) > 0
    &&& forall|key: u64| #[trigger] m.contains_key(key) ==> m[key] == count_of(keys, key)
}

fn stroke_key_exec(s: Option<u32>) -> (k: u64)
    ensures
        k == stroke_key(s),
{
    match s {
        None => 0,
        Some(id) => id as u64 + 1,
    }
}

/// Count one more occurrence of `key`.
fn tally_one(m: &mut HashMap<u64, usize, FxBuildHasher>, key: u64, Ghost(keys): Ghost<Seq<u64>>)
    requires
        old(m)@.dom().finite(),
        represents(old(m)@, keys),
        keys.len() < usize::MAX,
    ensures
        final(m)@.dom().finite(),
        represents(final(m)@, keys.push(key)),
{
    proof {
        lemma_count_positive(keys, key);
    }
    let count = match tally_get(m, key) {
        Some(c) => c + 1,
        None => 1,
    };
    tally_insert(m, key, count);
    proof {
        assert forall|key2: u64| #[trigger] final(m)@.contains_key(key2) <==> count_of(keys.push(key), key2) > 0 by {
            lemma_count_push(keys, key, key2);
        }
        assert forall|key2: u64| #[trigger] final(m)@.contains_key(key2) implies final(m)@[key2] == count_of(
            keys.push(key),
            key2,
        ) by {
            lemma_count_push(keys, key, key2);
        }
    }
}

/// Whether all keys are the same (and there is one).
pub open spec fn all_same(keys: Seq<u64>) -> bool {
    keys.len() > 0 && forall|i: int| 0 <= i < keys.len() ==> #[trigger] keys[i] == keys[0]
}

/// The stroke that a table's border can inherit: `None` if no cell has a
/// stroke key counted, else the most used stroke (by key) and whether it is
/// the only one.
pub open spec fn table_stroke_result(keys: Seq<u64>, chosen: u64) -> Option<(u32, bool)> {
    if keys.len() == 0 || chosen == 0 {
        None
    } else {
        Some(((chosen - 1) as u32, all_same(keys)))
    }
}

/// Whether `border` is a stroke a table's border can inherit, given the
/// strokes of its cells: none without cells; else a most used stroke (none
/// if that is the lack of a stroke), with whether it is the only one.
pub open spec fn border_choice<T>(
    st: Seq<Sides<PrioritizedStroke>>,
    entries: Seq<GridEntry<T>>,
    border: Option<(u32, bool)>,
) -> bool {
    let keys = stroke_keys(st, entries, entries.len() as int);
    &&& keys.len() == 0 ==> border is None
    &&& keys.len() > 0 ==> exists|chosen: u64|
        #![trigger count_of(keys, chosen)]
        keys.contains(chosen) && (forall|k: u64| #[trigger] count_of(keys, k) <= count_of(keys, chosen))
            && border == table_stroke_result(keys, chosen)
}

impl StrokeGrid {
    /// Try to resolve the stroke that the whole table's border can inherit:
    /// count every side of every cell (omitted strokes too); the most used
    /// stroke is chosen, and it is uniform if it is the only one. `None` if
    /// there are no cells or the most used is no stroke.
    pub fn try_resolve_table_stroke<T>(&self, cells: &GridCells<T>) -> (r: Option<(u32, bool)>)
        requires
            grid_fits(self.strokes_seq(), self.cols(), *cells),
            4 * cells.entries_seq().len() <= usize::MAX,
        ensures
            border_choice(self.strokes_seq(), cells.entries_seq(), r),
    {
        let entries = cells.iter();
        let ghost all = stroke_keys(self.strokes_seq(), cells.entries_seq(), entries@.len() as int);
        let mut strokes: HashMap<u64, usize, FxBuildHasher> = HashMap::default();
        let mut k: usize = 0;
        while k < entries.len()
            invariant
                entries@ == cells.entries_seq(),
                grid_fits(self.strokes_seq(), self.cols(), *cells),
                4 * entries@.len() <= usize::MAX,
                k <= entries@.len(),
                strokes@.dom().finite(),
                stroke_keys(self.strokes_seq(), entries@, k as int).len() <= 4 * k,
                represents(strokes@, stroke_keys(self.strokes_seq(), entries@, k as int)),
            decreases entries@.len() - k,
        {
            if entries[k].as_cell().is_some() {
                let s = self.strokes[k];
                let ghost base = stroke_keys(self.strokes_seq(), entries@, k as int);
                tally_one(&mut strokes, stroke_key_exec(s.left.stroke), Ghost(base));
                let ghost b1 = base.push(stroke_key(s.left.stroke));
                tally_one(&mut strokes, stroke_key_exec(s.top.stroke), Ghost(b1));
                let ghost b2 = b1.push(stroke_key(s.top.stroke));
                tally_one(&mut strokes, stroke_key_exec(s.right.stroke), Ghost(b2));
                let ghost b3 = b2.push(stroke_key(s.right.stroke));
                tally_one(&mut strokes, stroke_key_exec(s.bottom.stroke), Ghost(b3));
                let ghost four = seq![
                    stroke_key(s.left.stroke),
                    stroke_key(s.top.stroke),
                    stroke_key(s.right.stroke),
                    stroke_key(s.bottom.stroke),
                ];
                proof {
                    assert(b3.push(stroke_key(s.bottom.stroke)) =~= base + four);
                }
                proof {
                    assert(stroke_keys(self.strokes_seq(), entries@, k + 1) == base + four);
                }
            } else {
                proof {
                    assert(stroke_keys(self.strokes_seq(), entries@, k + 1) == stroke_keys(
                        self.strokes_seq(),
                        entries@,
                        k as int,
                    ));
                }
            }
            k = k + 1;
        }
        let ghost keys = stroke_keys(self.strokes_seq(), entries@, entries@.len() as int);
        let distinct = tally_len(&strokes);
        let uniform = distinct == 1;
        let counted = tally_entries(&strokes);
        if counted.len() == 0 {
            proof {
                if keys.len() > 0 {
                    lemma_count_positive(keys, keys[0]);
                    assert(strokes@.contains_key(keys[0]));
                    assert(strokes@.dom().contains(keys[0]));
                }
            }
            return None;
        }
        let mut best: usize = 0;
        let mut i: usize = 1;
        while i < counted.len()
            invariant
                1 <= i <= counted@.len(),
                best < i,
                forall|j: int| 0 <= j < i ==> #[trigger] counted@[j].1 <= counted@[best as int].1,
            decreases counted@.len() - i,
        {
            if counted[i].1 >= counted[best].1 {
                best = i;
            }
            i = i + 1;
        }
        let (chosen, _) = counted[best];
        proof {
            assert(strokes@.contains_key(counted@[best as int].0));
            lemma_distinct_keys(keys, strokes@.dom());
            lemma_count_positive(keys, chosen);
            assert forall|k2: u64| #[trigger] count_of(keys, k2) <= count_of(keys, chosen) by {
                if count_of(keys, k2) > 0 {
                    assert(strokes@.contains_key(k2));
                    let j = choose|j: int| 0 <= j < counted@.len() && counted@[j].0 == k2;
                    assert(strokes@.contains_key(counted@[j].0));
                    assert(counted@[j].1 <= counted@[best as int].1);
                }
            }
        }
        if chosen == 0 {
            None
        } else {
            Some(((chosen - 1) as u32, uniform))
        }
    }
}

/// The sides in the order in which they are visited: left, top, right,
/// bottom.
pub open spec fn sides_seq<T>(s: Sides<T>) -> Seq<T> {
    seq![s.left, s.top, s.right, s.bottom]
}

/// Whether every present value equals the parent value.
pub open spec fn all_present_match(values: Sides<Option<u32>>, parent: Option<u32>) -> bool {
    forall|i: int| 0 <= i < 4 && (#[trigger] sides_seq(values)[i]) is Some ==> sides_seq(values)[i] == parent
}

/// The first present value, in side order.
pub open spec fn first_present(values: Sides<Option<u32>>) -> Option<u32> {
    if values.left is Some {
        values.left
    } else if values.top is Some {
        values.top
    } else if values.right is Some {
        values.right
    } else {
        values.bottom
    }
}

/// A cell attribute for each side, as little as needed: nothing if every
/// present value equals the parent's (which covers no value present);
/// otherwise each side's own value, with missing sides filled by `default`,
/// or without one by the first present value.
pub open spec fn resolved_sides(
    values: Sides<Option<u32>>,
    parent: Option<u32>,
    default: Option<u32>,
) -> Option<Sides<u32>> {
    if all_present_match(values, parent) {
        None
    } else {
        let fill = match default {
            Some(d) => d,
            None => first_present(values)->0,
        };
        let pick = |v: Option<u32>| match v {
            Some(x) => x,
            None => fill,
        };
        Some(
            Sides {
                left: pick(values.left),
                top: pick(values.top),
                right: pick(values.right),
                bottom: pick(values.bottom),
            },
        )
    }
}

fn matches_parent(v: Option<u32>, parent: Option<u32>) -> (b: bool)
    ensures
        b == (v is Some ==> v == parent),
{
    match v {
        Some(x) => match parent {
            Some(p) => x == p,
            None => false,
        },
        None => true,
    }
}

fn or_fill(v: Option<u32>, fill: u32) -> (r: u32)
    ensures
        r == (match v {
            Some(x) => x,
            None => fill,
        }),
{
    match v {
        Some(x) => x,
        None => fill,
    }
}

/// Minimize the attributes written per table cell: the parent value is set
/// on the table and inherited by every cell, so a cell needs its own value
/// only where a present value differs from it.
pub fn resolve_sides(values: Sides<Option<u32>>, parent: Option<u32>, default: Option<u32>) -> (r:
    Option<Sides<u32>>)
    ensures
        r == resolved_sides(values, parent, default),
{
    let all_match = matches_parent(values.left, parent) && matches_parent(values.top, parent)
        && matches_parent(values.right, parent) && matches_parent(values.bottom, parent);
    proof {
        let s = sides_seq(values);
        assert(s[0] == values.left && s[1] == values.top && s[2] == values.right && s[3]
            == values.bottom);
        if all_match {
            assert forall|i: int| 0 <= i < 4 && (#[trigger] s[i]) is Some implies s[i]
                == parent by {
                if i == 0 {
                } else if i == 1 {
                } else if i == 2 {
                } else {
                }
            }
        }
    }
    if all_match {
        return None;
    }
    let first = if values.left.is_some() {
        values.left
    } else if values.top.is_some() {
        values.top
    } else if values.right.is_some() {
        values.right
    } else {
        values.bottom
    };
    let fill = match default {
        Some(d) => d,
        None => match first {
            Some(f) => f,
            None => 0,
        },
    };
    Some(
        Sides {
            left: or_fill(values.left, fill),
            top: or_fill(values.top, fill),
            right: or_fill(values.right, fill),
            bottom: or_fill(values.bottom, fill),
        },
    )
}

/// A resolved attribute keeps every present value, and fills every side.
pub proof fn lemma_resolved_sides_keep_present(
    values: Sides<Option<u32>>,
    parent: Option<u32>,
    default: Option<u32>,
)
    ensures
        resolved_sides(values, parent, default) is None <==> all_present_match(values, parent),
        resolved_sides(values, parent, default) matches Some(r) ==> {
            &&& (values.left matches Some(v) ==> r.left == v)
            &&& (values.top matches Some(v) ==> r.top == v)
            &&& (values.right matches Some(v) ==> r.right == v)
            &&& (values.bottom matches Some(v) ==> r.bottom == v)
        },
        !(values.left is Some || values.top is Some || values.right is Some || values.bottom is Some)
            ==> resolved_sides(values, parent, default) is None,
{
    let s = sides_seq(values);
    assert(s[0] == values.left && s[1] == values.top && s[2] == values.right && s[3]
        == values.bottom);
}

} // verus!
