//! Cell maps for grids and tables during tagged PDF export.
//!
//! A [`GridCells`] value is a row-major map of a grid's positions. Each
//! position holds the cell that starts there, a reference to the parent cell
//! that spans over it, or nothing yet.

use vstd::prelude::*;

use crate::tag::{Smart, TableCellKind};

verus! {

/// The identifier of a group in the tag tree.
#[derive(Clone, Copy, Debug, PartialEq, Eq, Structural)]
pub struct GroupId(pub u32);

impl GroupId {
    /// The placeholder id that refers to no group.
    pub fn invalid() -> (g: GroupId)
        ensures
            g.0 == u32::MAX,
    {
        GroupId(4294967295u32)
    }
}

/// A cell placed in a grid, with the data attached to it.
///
/// `rowspan` and `colspan` are at least one.
pub struct CtxCell<D> {
    pub data: D,
    pub x: u32,
    pub y: u32,
    pub rowspan: u32,
    pub colspan: u32,
    pub id: GroupId,
}

/// One position of a grid.
pub enum GridEntry<D> {
    /// The cell that starts at this position.
    Cell(CtxCell<D>),
    /// The position is covered by the cell stored at the given index.
    Spanned(usize),
    /// No cell has been placed here.
    Missing,
}

impl<D> GridEntry<D> {
    /// The cell stored in this entry, if any.
    pub fn as_cell(&self) -> (r: Option<&CtxCell<D>>)
        ensures
            r.is_some() == (*self is Cell),
            r.is_some() ==> *r.unwrap() == self->Cell_0,
    {
        if let GridEntry::Cell(v) = self {
            Some(v)
        } else {
            None
        }
    }

    /// Mutable access to the cell stored in this entry, if any.
    pub fn as_cell_mut(&mut self) -> (r: Option<&mut CtxCell<D>>)
        ensures
            r.is_some() == (*old(self) is Cell),
            r.is_none() ==> *final(self) == *old(self),
            r.is_some() ==> *r.unwrap() == old(self)->Cell_0,
            r.is_some() ==> *final(self) == GridEntry::Cell(*final(r.unwrap())),
    {
        if let GridEntry::Cell(v) = self {
            Some(v)
        } else {
            None
        }
    }

    /// Whether no cell covers this position.
    pub fn is_missing(&self) -> (b: bool)
        ensures
            b == (*self is Missing),
    {
        match self {
            GridEntry::Missing => true,
            _ => false,
        }
    }
}

/// The cell that an entry stands for: the entry's own cell, or the parent
/// cell that a spanned entry refers to.
pub open spec fn resolve_entry<D>(entries: Seq<GridEntry<D>>, e: GridEntry<D>) -> Option<CtxCell<D>> {
    match e {
        GridEntry::Cell(c) => Some(c),
        GridEntry::Spanned(p) => match entries[p as int] {
            GridEntry::Cell(c) => Some(c),
            _ => None,
        },
        GridEntry::Missing => None,
    }
}

/// Whether row-major index `k` lies in the span of a cell at `(x, y)` with
/// the given spans, in a grid of the given width.
pub open spec fn in_span(k: int, x: int, y: int, colspan: int, rowspan: int, width: int) -> bool {
    exists|i: int, j: int|
        #![trigger j * width + i]
        x <= i < x + colspan && y <= j < y + rowspan && j * width + i == k
}

/// A row-major map of grid positions to the cells that cover them.
pub struct GridCells<T> {
    width: usize,
    entries: Vec<GridEntry<T>>,
}

impl<T> GridCells<T> {
    /// The number of columns.
    pub closed spec fn cols(&self) -> nat {
        self.width as nat
    }

    /// The entries in row-major order.
    pub closed spec fn entries_seq(&self) -> Seq<GridEntry<T>> {
        self.entries@
    }

    /// The row-major index of position `(x, y)`.
    pub open spec fn index_of(&self, x: int, y: int) -> int {
        y * self.cols() + x
    }

    /// The well-formedness of a cell map: it holds whole rows, and every
    /// spanned entry refers to a position inside the map.
    pub open spec fn wf(&self) -> bool {
        &&& self.entries_seq().len() <= usize::MAX
        &&& self.cols() == 0 ==> self.entries_seq().len() == 0
        &&& self.cols() > 0 ==> self.entries_seq().len() % self.cols() == 0
        &&& forall|k: int|
            0 <= k < self.entries_seq().len() && (#[trigger] self.entries_seq()[k]) is Spanned
                ==> self.entries_seq()[k]->Spanned_0 < self.entries_seq().len()
    }

    /// The number of rows.
    pub open spec fn rows_count(&self) -> nat {
        if self.cols() == 0 { 0 } else { self.entries_seq().len() / self.cols() }
    }

    /// The cell that covers position `(x, y)`.
    pub open spec fn resolve_at_spec(&self, x: int, y: int) -> Option<CtxCell<T>> {
        resolve_entry(self.entries_seq(), self.entries_seq()[self.index_of(x, y)])
    }

    /// Create a map of `width * height` positions, none of them covered.
    pub fn new(width: usize, height: usize) -> (r: Self)
        requires
            width * height <= usize::MAX,
        ensures
            r.wf(),
            r.cols() == width,
            r.entries_seq().len() == width * height,
            forall|k: int| 0 <= k < width * height ==> (#[trigger] r.entries_seq()[k]) is Missing,
    {
        let n = width * height;
        let mut entries: Vec<GridEntry<T>> = Vec::with_capacity(n);
        let mut k: usize = 0;
        while k < n
            invariant
                k <= n,
                entries@.len() == k,
                forall|m: int| 0 <= m < k ==> (#[trigger] entries@[m]) is Missing,
            decreases n - k,
        {
            entries.push(GridEntry::Missing);
            k = k + 1;
        }
        let r = GridCells { width, entries };
        proof {
            if width > 0 {
                vstd::arithmetic::div_mod::lemma_mod_multiples_basic(height as int, width as int);
                assert((width * height) as int == height * width) by (nonlinear_arith);
            } else {
                assert(width * height == 0);
            }
        }
        r
    }

    /// Whether the map has no positions.
    pub fn is_empty(&self) -> (b: bool)
        ensures
            b == (self.entries_seq().len() == 0),
    {
        self.entries.len() == 0
    }

    /// Free the entries, keeping the map valid but empty.
    pub fn clear(&mut self)
        ensures
            final(self).wf(),
            final(self).cols() == 0,
            final(self).entries_seq().len() == 0,
    {
        self.entries = Vec::new();
        self.width = 0;
    }

    /// The number of columns, truncated to 32 bits.
    pub fn width(&self) -> (w: u32)
        ensures
            w == self.cols() as u32,
    {
        self.width as u32
    }

    /// The number of rows, truncated to 32 bits.
    pub fn height(&self) -> (h: u32)
        requires
            self.cols() > 0,
        ensures
            h == self.rows_count() as u32,
    {
        (self.entries.len() / self.width) as u32
    }

    /// All entries in row-major order.
    pub fn iter(&self) -> (s: &[GridEntry<T>])
        ensures
            s@ == self.entries_seq(),
    {
        self.entries.as_slice()
    }

    /// The entries row by row.
    pub fn rows(&self) -> (rows: Vec<&[GridEntry<T>]>)
        requires
            self.wf(),
            self.cols() > 0,
        ensures
            rows@.len() == self.rows_count(),
            forall|y: int|
                0 <= y < rows@.len() ==> (#[trigger] rows@[y])@ == self.entries_seq().subrange(
                    y * self.cols(),
                    (y + 1) * self.cols(),
                ),
    {
        let w = self.width;
        let len = self.entries.len();
        let h = len / w;
        let mut rows: Vec<&[GridEntry<T>]> = Vec::new();
        let mut y: usize = 0;
        proof {
            vstd::arithmetic::div_mod::lemma_fundamental_div_mod(len as int, w as int);
            assert(len % w == 0);
            assert(h * w == w * h) by (nonlinear_arith);
        }
        while y < h
            invariant
                w == self.cols(),
                w > 0,
                len == self.entries_seq().len(),
                h == len / w,
                h * w == len,
                y <= h,
                rows@.len() == y,
                forall|r: int|
                    0 <= r < y ==> (#[trigger] rows@[r])@ == self.entries_seq().subrange(
                        r * w,
                        (r + 1) * w,
                    ),
            decreases h - y,
        {
            proof {
                assert((y + 1) * w <= h * w) by (nonlinear_arith)
                    requires y < h, w > 0;
                assert((y + 1) * w == y * w + w) by (nonlinear_arith);
            }
            let start = y * w;
            let end = start + w;
            let row = &self.entries.as_slice()[start..end];
            rows.push(row);
            y = y + 1;
        }
        rows
    }

    /// The row-major index of `(x, y)`.
    fn cell_idx(&self, x: u32, y: u32) -> (idx: usize)
        requires
            self.index_of(x as int, y as int) <= usize::MAX,
        ensures
            idx == self.index_of(x as int, y as int),
    {
        proof {
            assert(0 <= y * self.cols()) by (nonlinear_arith);
        }
        y as usize * self.width + x as usize
    }

    /// The cell that covers `(x, y)`, resolved through spanned entries.
    pub fn resolve<'a>(&'a self, cell: &'a GridEntry<T>) -> (r: Option<&'a CtxCell<T>>)
        requires
            *cell is Spanned ==> cell->Spanned_0 < self.entries_seq().len(),
        ensures
            r.is_some() == resolve_entry(self.entries_seq(), *cell).is_some(),
            r.is_some() ==> *r.unwrap() == resolve_entry(self.entries_seq(), *cell).unwrap(),
    {
        match cell {
            GridEntry::Cell(c) => Some(c),
            GridEntry::Spanned(idx) => self.entries[*idx].as_cell(),
            GridEntry::Missing => None,
        }
    }

    /// Resolve a position to the cell that covers it.
    pub fn resolve_at(&self, x: u32, y: u32) -> (r: Option<&CtxCell<T>>)
        requires
            self.wf(),
            self.index_of(x as int, y as int) < self.entries_seq().len(),
        ensures
            r.is_some() == self.resolve_at_spec(x as int, y as int).is_some(),
            r.is_some() ==> *r.unwrap() == self.resolve_at_spec(x as int, y as int).unwrap(),
    {
        let _len = self.entries.len();
        let idx = self.cell_idx(x, y);
        self.resolve(&self.entries[idx])
    }

    /// Whether `cell` can be placed: the map is well-formed, the end of its
    /// span fits in 32 bits, every position of its span lies inside the map,
    /// and its own position holds nothing yet.
    pub open spec fn can_insert(&self, cell: CtxCell<T>) -> bool {
        self.can_place(cell.x, cell.y, cell.colspan, cell.rowspan)
    }

    /// Whether a cell at `(x, y)` with the given spans can be placed.
    pub open spec fn can_place(&self, x: u32, y: u32, colspan: u32, rowspan: u32) -> bool {
        &&& self.wf()
        &&& x + colspan <= u32::MAX
        &&& y + rowspan <= u32::MAX
        &&& self.index_of(x as int, y as int) < self.entries_seq().len()
        &&& forall|i: int, j: int|
            x <= i < x + colspan && y <= j < y + rowspan
                ==> #[trigger] self.index_of(i, j) < self.entries_seq().len()
        &&& self.entries_seq()[self.index_of(x as int, y as int)] is Missing
    }

    /// Whether `after` is this map with `cell` placed: the cell's own
    /// position holds the cell, the other positions of its span refer to it,
    /// and every other position is unchanged.
    pub open spec fn inserted(&self, after: Self, cell: CtxCell<T>) -> bool {
        let p = self.index_of(cell.x as int, cell.y as int);
        &&& after.wf()
        &&& after.cols() == self.cols()
        &&& after.entries_seq().len() == self.entries_seq().len()
        &&& after.entries_seq()[p] == GridEntry::Cell(cell)
        &&& forall|k: int|
            0 <= k < self.entries_seq().len() && k != p ==> #[trigger] after.entries_seq()[k]
                == if in_span(
                k,
                cell.x as int,
                cell.y as int,
                cell.colspan as int,
                cell.rowspan as int,
                self.cols() as int,
            ) {
                GridEntry::Spanned(p as usize)
            } else {
                self.entries_seq()[k]
            }
    }

    /// The index of the entry that holds the cell covering `(x, y)`.
    pub open spec fn owner_index(&self, x: int, y: int) -> int {
        match self.entries_seq()[self.index_of(x, y)] {
            GridEntry::Spanned(p) => p as int,
            _ => self.index_of(x, y),
        }
    }

    /// Mutable access to the cell that covers `(x, y)`.
    pub fn cell_mut(&mut self, x: u32, y: u32) -> (r: Option<&mut CtxCell<T>>)
        requires
            old(self).wf(),
            old(self).index_of(x as int, y as int) < old(self).entries_seq().len(),
        ensures
            r.is_some() == old(self).resolve_at_spec(x as int, y as int).is_some(),
            r.is_none() ==> final(self).cols() == old(self).cols(),
            r.is_none() ==> final(self).entries_seq() == old(self).entries_seq(),
            r.is_some() ==> *r.unwrap() == old(self).resolve_at_spec(x as int, y as int).unwrap(),
            r.is_some() ==> final(self).cols() == old(self).cols(),
            r.is_some() ==> final(self).entries_seq() == old(self).entries_seq().update(
                old(self).owner_index(x as int, y as int),
                GridEntry::Cell(*final(r.unwrap())),
            ),
    {
        let _len = self.entries.len();
        let idx = self.cell_idx(x, y);
        let target = match &self.entries[idx] {
            GridEntry::Spanned(p) => *p,
            _ => idx,
        };
        self.entries[target].as_cell_mut()
    }

    /// Place a cell: its own position holds the cell, and every other
    /// position in its span refers to that position.
    pub fn insert(&mut self, cell: CtxCell<T>)
        requires
            old(self).can_insert(cell),
        ensures
            old(self).inserted(*final(self), cell),
    {
        let x = cell.x;
        let y = cell.y;
        let rowspan = cell.rowspan;
        let colspan = cell.colspan;
        let _len = self.entries.len();
        let parent_idx = self.cell_idx(x, y);
        let ghost w = self.cols() as int;
        let ghost old_entries = self.entries_seq();
        let ghost len = old_entries.len();
        assert forall|i: int, jj: int|
            x <= i < x + colspan && y <= jj < y + rowspan implies #[trigger] (jj * w + i) < len by {
            assert(old(self).index_of(i, jj) == jj * w + i);
        }

        let mut j = y;
        while j < y + rowspan
            invariant
                y <= j <= y + rowspan,
                self.cols() == w,
                self.entries_seq().len() == len,
                len <= usize::MAX,
                parent_idx == y * w + x,
                parent_idx < len,
                x + colspan <= u32::MAX,
                y + rowspan <= u32::MAX,
                forall|i: int, jj: int|
                    x <= i < x + colspan && y <= jj < y + rowspan
                        ==> #[trigger] (jj * w + i) < len,
                forall|k: int|
                    0 <= k < len ==> #[trigger] self.entries_seq()[k] == if in_span(
                        k,
                        x as int,
                        y as int,
                        colspan as int,
                        j - y,
                        w,
                    ) {
                        GridEntry::Spanned(parent_idx)
                    } else {
                        old_entries[k]
                    },
            decreases y + rowspan - j,
        {
            let mut i = x;
            while i < x + colspan
                invariant
                    y <= j < y + rowspan,
                    x <= i <= x + colspan,
                    self.cols() == w,
                    self.entries_seq().len() == len,
                    len <= usize::MAX,
                    parent_idx == y * w + x,
                    x + colspan <= u32::MAX,
                    y + rowspan <= u32::MAX,
                    forall|ii: int, jj: int|
                        x <= ii < x + colspan && y <= jj < y + rowspan
                            ==> #[trigger] (jj * w + ii) < len,
                    forall|k: int|
                        0 <= k < len ==> #[trigger] self.entries_seq()[k] == if in_span(
                            k,
                            x as int,
                            y as int,
                            colspan as int,
                            j - y,
                            w,
                        ) || in_span(k, x as int, j as int, i - x, 1, w) {
                            GridEntry::Spanned(parent_idx)
                        } else {
                            old_entries[k]
                        },
                decreases x + colspan - i,
            {
                assert((j as int) * w + (i as int) < len);
                let idx = self.cell_idx(i, j);
                let ghost before = self.entries_seq();
                self.entries.set(idx, GridEntry::Spanned(parent_idx));
                proof {
                    assert forall|k: int| 0 <= k < len implies #[trigger] self.entries_seq()[k]
                        == if in_span(k, x as int, y as int, colspan as int, j - y, w) || in_span(
                        k,
                        x as int,
                        j as int,
                        i + 1 - x,
                        1,
                        w,
                    ) {
                        GridEntry::Spanned(parent_idx)
                    } else {
                        old_entries[k]
                    } by {
                        if k == idx {
                            assert(in_span(k, x as int, j as int, i + 1 - x, 1, w)) by {
                                assert((j as int) * w + (i as int) == k);
                            }
                        } else {
                            assert(self.entries_seq()[k] == before[k]);
                            if in_span(k, x as int, j as int, i + 1 - x, 1, w) {
                                let (ii, jj) = choose|ii: int, jj: int|
                                    #![trigger jj * w + ii]
                                    x <= ii < x + (i + 1 - x) && j <= jj < j + 1 && jj * w + ii
                                        == k;
                                assert(jj == j);
                                assert(ii != i);
                                assert(in_span(k, x as int, j as int, i - x, 1, w));
                            }
                            if in_span(k, x as int, j as int, i - x, 1, w) {
                                let (ii, jj) = choose|ii: int, jj: int|
                                    #![trigger jj * w + ii]
                                    x <= ii < x + (i - x) && j <= jj < j + 1 && jj * w + ii == k;
                                assert(in_span(k, x as int, j as int, i + 1 - x, 1, w));
                            }
                        }
                    }
                }
                i = i + 1;
            }
            proof {
                assert forall|k: int| 0 <= k < len implies #[trigger] self.entries_seq()[k]
                    == if in_span(k, x as int, y as int, colspan as int, j + 1 - y, w) {
                    GridEntry::Spanned(parent_idx)
                } else {
                    old_entries[k]
                } by {
                    let a = in_span(k, x as int, y as int, colspan as int, j - y, w);
                    let b = in_span(k, x as int, j as int, colspan as int, 1, w);
                    let c = in_span(k, x as int, y as int, colspan as int, j + 1 - y, w);
                    if c {
                        let (ii, jj) = choose|ii: int, jj: int|
                            #![trigger jj * w + ii]
                            x <= ii < x + colspan && y <= jj < y + (j + 1 - y) && jj * w + ii
                                == k;
                        if jj < j {
                            assert(a);
                        } else {
                            assert(b);
                        }
                    }
                    if a {
                        let (ii, jj) = choose|ii: int, jj: int|
                            #![trigger jj * w + ii]
                            x <= ii < x + colspan && y <= jj < y + (j - y) && jj * w + ii == k;
                        assert(c);
                    }
                    if b {
                        let (ii, jj) = choose|ii: int, jj: int|
                            #![trigger jj * w + ii]
                            x <= ii < x + colspan && j <= jj < j + 1 && jj * w + ii == k;
                        assert(c);
                    }
                }
            }
            j = j + 1;
        }
        self.entries.set(parent_idx, GridEntry::Cell(cell));
        proof {
            assert forall|k: int|
                0 <= k < self.entries_seq().len() && (
                #[trigger] self.entries_seq()[k]) is Spanned implies self.entries_seq()[k]->Spanned_0
                < self.entries_seq().len() by {
                if k != parent_idx {
                    if !in_span(k, x as int, y as int, colspan as int, rowspan as int, w) {
                        assert(old_entries[k] == self.entries_seq()[k]);
                    }
                }
            }
        }
    }
}

/// The ids of the cells stored in `entries`, in order.
pub open spec fn cell_ids<D>(entries: Seq<GridEntry<D>>) -> Seq<GroupId>
    decreases entries.len(),
{
    if entries.len() == 0 {
        Seq::empty()
    } else {
        let rest = cell_ids(entries.drop_last());
        match entries.last() {
            GridEntry::Cell(c) => rest.push(c.id),
            _ => rest,
        }
    }
}

/// What the tag tree knows of a grid or table cell.
pub struct CellInfo {
    pub x: u32,
    pub y: u32,
    pub rowspan: u32,
    pub colspan: u32,
    /// The kind of a table cell, if the cell is a table cell.
    pub kind: Option<Smart<TableCellKind>>,
}

/// A span as stored in a cell: zero counts as one.
pub open spec fn span_or_one(v: u32) -> u32 {
    if v == 0 { 1 } else { v }
}

pub(crate) fn span_or_one_exec(v: u32) -> (r: u32)
    ensures
        r == span_or_one(v),
{
    if v == 0 {
        1
    } else {
        v
    }
}

/// The cell that a grid context places for a cell of the tag tree.
pub open spec fn grid_ctx_cell(info: CellInfo, id: GroupId) -> CtxCell<()> {
    CtxCell {
        data: (),
        x: info.x,
        y: info.y,
        rowspan: span_or_one(info.rowspan),
        colspan: span_or_one(info.colspan),
        id,
    }
}

/// The cells of a (non-table) grid, collected while building the tag tree.
pub struct GridCtx {
    group_id: GroupId,
    cells: GridCells<()>,
}

impl GridCtx {
    /// The group of the grid itself.
    pub closed spec fn group(&self) -> GroupId {
        self.group_id
    }

    /// The grid's cell map.
    pub closed spec fn cell_map(&self) -> GridCells<()> {
        self.cells
    }

    /// Create the context for a grid with the given number of non-gutter
    /// columns and rows.
    pub fn new(group_id: GroupId, width: usize, height: usize) -> (ctx: GridCtx)
        requires
            width * height <= usize::MAX,
        ensures
            ctx.group() == group_id,
            ctx.cell_map().wf(),
            ctx.cell_map().cols() == width,
            ctx.cell_map().entries_seq().len() == width * height,
            forall|k: int|
                0 <= k < width * height ==> (#[trigger] ctx.cell_map().entries_seq()[k]) is Missing,
    {
        GridCtx { group_id, cells: GridCells::new(width, height) }
    }

    /// Place a cell of the grid.
    pub fn insert(&mut self, info: &CellInfo, id: GroupId)
        requires
            old(self).cell_map().can_insert(grid_ctx_cell(*info, id)),
        ensures
            final(self).group() == old(self).group(),
            old(self).cell_map().inserted(final(self).cell_map(), grid_ctx_cell(*info, id)),
    {
        self.cells.insert(
            CtxCell {
                data: (),
                x: info.x,
                y: info.y,
                rowspan: span_or_one_exec(info.rowspan),
                colspan: span_or_one_exec(info.colspan),
                id,
            },
        );
    }
}

/// The groups of the cells of a map, in row-major order.
pub fn cell_group_ids<T>(cells: &GridCells<T>) -> (ids: Vec<GroupId>)
    ensures
        ids@ == cell_ids(cells.entries_seq()),
{
    let entries = cells.iter();
    let mut ids: Vec<GroupId> = Vec::new();
    let mut k: usize = 0;
    while k < entries.len()
        invariant
            entries@ == cells.entries_seq(),
            k <= entries@.len(),
            ids@ == cell_ids(entries@.take(k as int)),
        decreases entries@.len() - k,
    {
        proof {
            assert(entries@.take(k + 1).drop_last() =~= entries@.take(k as int));
        }
        if let Some(cell) = entries[k].as_cell() {
            ids.push(cell.id);
        }
        k = k + 1;
    }
    proof {
        assert(entries@.take(entries@.len() as int) =~= entries@);
    }
    ids
}

/// Whether some position of a map holds no cell.
pub fn has_missing<T>(cells: &GridCells<T>) -> (b: bool)
    ensures
        b == exists|k: int| 0 <= k < cells.entries_seq().len() && (#[trigger] cells.entries_seq()[k]) is Missing,
{
    let entries = cells.iter();
    let mut k: usize = 0;
    while k < entries.len()
        invariant
            entries@ == cells.entries_seq(),
            k <= entries@.len(),
            forall|m: int| 0 <= m < k ==> !((#[trigger] entries@[m]) is Missing),
        decreases entries@.len() - k,
    {
        if entries[k].is_missing() {
            return true;
        }
        k = k + 1;
    }
    false
}

/// The groups to add to the tag tree for a grid: each cell's group, in
/// row-major order, as a child of the grid's group.
pub fn build_grid(ctx: &GridCtx) -> (pushes: Vec<(GroupId, GroupId)>)
    ensures
        pushes@.len() == cell_ids(ctx.cell_map().entries_seq()).len(),
        forall|k: int|
            0 <= k < pushes@.len() ==> (#[trigger] pushes@[k]) == (
            ctx.group(),
            cell_ids(ctx.cell_map().entries_seq())[k],
            ),
{
    let entries = ctx.cells.iter();
    let mut pushes: Vec<(GroupId, GroupId)> = Vec::new();
    let mut k: usize = 0;
    while k < entries.len()
        invariant
            entries@ == ctx.cell_map().entries_seq(),
            k <= entries@.len(),
            pushes@.len() == cell_ids(entries@.take(k as int)).len(),
            forall|m: int|
                0 <= m < pushes@.len() ==> (#[trigger] pushes@[m]) == (
                ctx.group(),
                cell_ids(entries@.take(k as int))[m],
                ),
        decreases entries@.len() - k,
    {
        proof {
            assert(entries@.take(k + 1).drop_last() =~= entries@.take(k as int));
        }
        if let Some(cell) = entries[k].as_cell() {
            pushes.push((ctx.group_id, cell.id));
        }
        k = k + 1;
    }
    proof {
        assert(entries@.take(entries@.len() as int) =~= entries@);
    }
    pushes
}

/// Every position inside the rows and columns of a well-formed map has an
/// entry.
pub proof fn lemma_position_in_range<T>(m: GridCells<T>, x: int, y: int)
    requires
        m.wf(),
        m.cols() > 0,
        0 <= x < m.cols(),
        0 <= y < m.rows_count(),
    ensures
        0 <= m.index_of(x, y) < m.entries_seq().len(),
{
    let w = m.cols() as int;
    let len = m.entries_seq().len() as int;
    vstd::arithmetic::div_mod::lemma_fundamental_div_mod(len, w);
    let h = len / w;
    assert(y * w + x < (y + 1) * w) by (nonlinear_arith)
        requires x < w;
    assert((y + 1) * w <= h * w) by (nonlinear_arith)
        requires y + 1 <= h, w > 0;
    assert(h * w == w * h) by (nonlinear_arith);
    assert(0 <= y * w) by (nonlinear_arith)
        requires y >= 0, w > 0;
}

/// After a cell is placed, every position of its span resolves to that
/// cell.
pub proof fn lemma_resolve_after_insert<T>(
    before: GridCells<T>,
    after: GridCells<T>,
    cell: CtxCell<T>,
    i: int,
    j: int,
)
    requires
        before.can_insert(cell),
        before.inserted(after, cell),
        cell.x <= i < cell.x + cell.colspan,
        cell.y <= j < cell.y + cell.rowspan,
    ensures
        after.index_of(i, j) < after.entries_seq().len(),
        after.resolve_at_spec(i, j) == Some(cell),
{
    let w = before.cols() as int;
    let p = before.index_of(cell.x as int, cell.y as int);
    let k = before.index_of(i, j);
    assert(k < before.entries_seq().len());
    if k != p {
        assert(in_span(k, cell.x as int, cell.y as int, cell.colspan as int, cell.rowspan as int, w))
            by {
            assert(j * w + i == k);
        }
        assert(after.entries_seq()[k] == GridEntry::<T>::Spanned(p as usize));
    }
}

/// Placing a cell leaves every position outside its span as it was.
pub proof fn lemma_insert_keeps_outside<T>(
    before: GridCells<T>,
    after: GridCells<T>,
    cell: CtxCell<T>,
    k: int,
)
    requires
        before.can_insert(cell),
        before.inserted(after, cell),
        0 <= k < before.entries_seq().len(),
        !in_span(
            k,
            cell.x as int,
            cell.y as int,
            cell.colspan as int,
            cell.rowspan as int,
            before.cols() as int,
        ),
        k != before.index_of(cell.x as int, cell.y as int),
    ensures
        after.entries_seq()[k] == before.entries_seq()[k],
{
}

/// Whether position `(i, j)` lies in the span of `cell`.
pub open spec fn covers<T>(cell: CtxCell<T>, i: int, j: int) -> bool {
    cell.x <= i < cell.x + cell.colspan && cell.y <= j < cell.y + cell.rowspan
}

/// Whether the spans of `cells` lie inside a grid of `w` columns and `h`
/// rows, each covers at least its own position, and no two overlap.
pub open spec fn disjoint_in_bounds<T>(cells: Seq<CtxCell<T>>, w: int, h: int) -> bool {
    &&& forall|c: int|
        0 <= c < cells.len() ==> {
            &&& #[trigger] cells[c].colspan >= 1
            &&& cells[c].rowspan >= 1
            &&& cells[c].x + cells[c].colspan <= w
            &&& cells[c].y + cells[c].rowspan <= h
        }
    &&& forall|a: int, b: int, i: int, j: int|
        0 <= a < cells.len() && 0 <= b < cells.len() && a != b ==> !(#[trigger] covers(
            cells[a],
            i,
            j,
        ) && #[trigger] covers(cells[b], i, j))
}

proof fn lemma_position_unique(w: int, i: int, j: int, i2: int, j2: int)
    requires
        0 <= i < w,
        0 <= i2 < w,
        0 <= j,
        0 <= j2,
        j * w + i == j2 * w + i2,
    ensures
        i == i2,
        j == j2,
{
    if j < j2 {
        assert(j * w + i < j2 * w + i2) by (nonlinear_arith)
            requires
                j < j2,
                0 <= i < w,
                0 <= i2,
        ;
    } else if j > j2 {
        assert(j2 * w + i2 < j * w + i) by (nonlinear_arith)
            requires
                j2 < j,
                0 <= i2 < w,
                0 <= i,
        ;
    }
}

/// The entry that position `(i, j)` holds once the first `n` of `cells`
/// are placed: the covering cell at its own position, a reference to that
/// position elsewhere in its span, or nothing.
pub open spec fn placed_entry<T>(cells: Seq<CtxCell<T>>, n: int, w: int, e: GridEntry<T>, i: int, j: int) -> bool {
    &&& forall|c: int|
        0 <= c < n && #[trigger] covers(cells[c], i, j) ==> e == if i == cells[c].x && j
            == cells[c].y {
            GridEntry::Cell(cells[c])
        } else {
            GridEntry::Spanned((cells[c].y * w + cells[c].x) as usize)
        }
    &&& (forall|c: int| 0 <= c < n ==> !#[trigger] covers(cells[c], i, j)) ==> e is Missing
}

proof fn lemma_placed_step<T>(
    before: GridCells<T>,
    after: GridCells<T>,
    cells: Seq<CtxCell<T>>,
    n: int,
    w: int,
    h: int,
)
    requires
        0 <= n < cells.len(),
        w == before.cols(),
        w > 0,
        before.entries_seq().len() == w * h,
        disjoint_in_bounds(cells, w, h),
        before.inserted(after, cells[n]),
        forall|i: int, j: int|
            0 <= i < w && 0 <= j < h ==> placed_entry(
                cells,
                n,
                w,
                #[trigger] before.entries_seq()[j * w + i],
                i,
                j,
            ),
    ensures
        forall|i: int, j: int|
            0 <= i < w && 0 <= j < h ==> placed_entry(
                cells,
                n + 1,
                w,
                #[trigger] after.entries_seq()[j * w + i],
                i,
                j,
            ),
{
    let cell = cells[n];
    let p = cell.y * w + cell.x;
    assert(cell.colspan >= 1);
    assert forall|i: int, j: int| 0 <= i < w && 0 <= j < h implies placed_entry(
        cells,
        n + 1,
        w,
        #[trigger] after.entries_seq()[j * w + i],
        i,
        j,
    ) by {
        let k = j * w + i;
        assert(0 <= k < w * h) by (nonlinear_arith)
            requires
                0 <= i < w,
                0 <= j < h,
                k == j * w + i,
        ;
        assert(before.index_of(cell.x as int, cell.y as int) == p);
        let spanned = in_span(k, cell.x as int, cell.y as int, cell.colspan as int, cell.rowspan as int, w);
        if covers(cell, i, j) {
            if i == cell.x && j == cell.y {
                assert(k == p);
            } else {
                assert(k != p) by {
                    if k == p {
                        lemma_position_unique(w, i, j, cell.x as int, cell.y as int);
                    }
                }
                assert(spanned) by {
                    assert(j * w + i == k);
                }
            }
            assert forall|c: int| 0 <= c < n && #[trigger] covers(cells[c], i, j) implies false by {
                assert(covers(cells[c], i, j) && covers(cells[n], i, j));
            }
        } else {
            assert(k != p) by {
                if k == p {
                    lemma_position_unique(w, i, j, cell.x as int, cell.y as int);
                }
            }
            assert(!spanned) by {
                if spanned {
                    let (i2, j2) = choose|i2: int, j2: int|
                        #![trigger j2 * w + i2]
                        cell.x <= i2 < cell.x + cell.colspan && cell.y <= j2 < cell.y
                            + cell.rowspan && j2 * w + i2 == k;
                    lemma_position_unique(w, i, j, i2, j2);
                }
            }
            assert(after.entries_seq()[k] == before.entries_seq()[k]);
        }
    }
}

proof fn lemma_placed_upto<T>(
    states: Seq<GridCells<T>>,
    cells: Seq<CtxCell<T>>,
    w: int,
    h: int,
    n: int,
)
    requires
        0 <= n <= cells.len(),
        w > 0,
        states.len() == cells.len() + 1,
        states[0].cols() == w,
        states[0].entries_seq().len() == w * h,
        disjoint_in_bounds(cells, w, h),
        forall|m: int| 0 <= m < cells.len() ==> #[trigger] states[m].inserted(states[m + 1], cells[m]),
        forall|i2: int, j2: int|
            0 <= i2 < w && 0 <= j2 < h ==> placed_entry(
                cells,
                0,
                w,
                #[trigger] states[0].entries_seq()[j2 * w + i2],
                i2,
                j2,
            ),
    ensures
        states[n].cols() == w,
        states[n].entries_seq().len() == w * h,
        forall|i2: int, j2: int|
            0 <= i2 < w && 0 <= j2 < h ==> placed_entry(
                cells,
                n,
                w,
                #[trigger] states[n].entries_seq()[j2 * w + i2],
                i2,
                j2,
            ),
    decreases n,
{
    if n > 0 {
        let m = n - 1;
        lemma_placed_upto(states, cells, w, h, m);
        assert(states[m].inserted(states[m + 1], cells[m]));
        assert(m + 1 == n);
        lemma_placed_step(states[m], states[n], cells, m, w, h);
    }
}

/// Placing cells whose spans lie in the grid and do not overlap, one after
/// another into a map with no cell yet, leaves every position resolving to
/// the cell whose span covers it, and positions that no span covers to
/// nothing.
pub proof fn lemma_resolve_after_disjoint_inserts<T>(
    states: Seq<GridCells<T>>,
    cells: Seq<CtxCell<T>>,
    w: nat,
    h: nat,
    i: int,
    j: int,
)
    requires
        states.len() == cells.len() + 1,
        states[0].cols() == w,
        states[0].entries_seq().len() == w * h,
        forall|k: int| 0 <= k < w * h ==> (#[trigger] states[0].entries_seq()[k]) is Missing,
        forall|n: int| 0 <= n < cells.len() ==> #[trigger] states[n].inserted(states[n + 1], cells[n]),
        disjoint_in_bounds(cells, w as int, h as int),
        0 <= i < w,
        0 <= j < h,
    ensures
        forall|c: int|
            0 <= c < cells.len() && #[trigger] covers(cells[c], i, j) ==> states.last().resolve_at_spec(
                i,
                j,
            ) == Some(cells[c]),
        (forall|c: int| 0 <= c < cells.len() ==> !#[trigger] covers(cells[c], i, j))
            ==> states.last().resolve_at_spec(i, j) is None,
{
    let wi = w as int;
    let hi = h as int;
    assert forall|i2: int, j2: int| 0 <= i2 < wi && 0 <= j2 < hi implies placed_entry(
        cells,
        0,
        wi,
        #[trigger] states[0].entries_seq()[j2 * wi + i2],
        i2,
        j2,
    ) by {
        assert(0 <= j2 * wi + i2 < wi * hi) by (nonlinear_arith)
            requires
                0 <= i2 < wi,
                0 <= j2 < hi,
        ;
    }
    lemma_placed_upto(states, cells, wi, hi, cells.len() as int);
    let last = states.last();
    assert(last == states[cells.len() as int]);
    let e = last.entries_seq();
    let k = j * wi + i;
    assert(last.index_of(i, j) == k);
    assert(0 <= k < wi * hi) by (nonlinear_arith)
        requires
            0 <= i < wi,
            0 <= j < hi,
            k == j * wi + i,
    ;
    assert(placed_entry(cells, cells.len() as int, wi, e[k], i, j));
    assert forall|c: int| 0 <= c < cells.len() && #[trigger] covers(cells[c], i, j) implies last.resolve_at_spec(
        i,
        j,
    ) == Some(cells[c]) by {
        let cc = cells[c];
        let m = cells.len() - 1;
        assert(states[m].inserted(states[m + 1], cells[m]));
        assert(last.wf());
        assert(cc.colspan >= 1);
        let hx = cc.x as int;
        let hy = cc.y as int;
        assert(covers(cc, hx, hy));
        assert(0 <= hy * wi + hx < wi * hi) by (nonlinear_arith)
            requires
                0 <= hx < wi,
                0 <= hy < hi,
        ;
        assert(placed_entry(cells, cells.len() as int, wi, e[hy * wi + hx], hx, hy));
        assert(e[hy * wi + hx] == GridEntry::Cell(cc));
    }
}

} // verus!
