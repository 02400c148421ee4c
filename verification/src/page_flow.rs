//! The decisions that drive page layout for large documents: which layout
//! strategy to use, whether each finished page stays in memory or goes to
//! the on-disk page store, when memoization caches are evicted and the heap
//! trimmed, how page runs are chunked for parallel layout, and where tags
//! left over at the end go.
//!
//! The layout work itself (flow layout, finalization, writing pages) is done
//! by the caller, which performs each action these functions decide on.

use vstd::prelude::*;

verus! {

/// Entries in one grid above which it counts as large.
pub const LARGE_GRID_ENTRIES: usize = 50_000;

/// Entries over all grids from which a document counts as holding many
/// tables.
pub const MANY_TABLES_ENTRIES: usize = 50_000;

/// Page runs up to which a many-table document is laid out page by page.
pub const STREAMING_MAX_RUNS: usize = 4;

/// Pages kept in memory before a large-grid document starts flushing.
pub const FLUSH_THRESHOLD: usize = 25;

/// Pages between cache evictions for a large single table.
pub const EVICT_INTERVAL: usize = 5;

/// Pages between full heap trims for a large single table.
pub const TRIM_INTERVAL: usize = 25;

/// Pages between cache evictions for many tables laid out page by page.
pub const MULTI_TABLE_EVICT_INTERVAL: usize = 50;

/// Page runs laid out in parallel at a time.
pub const CHUNK_SIZE: usize = 2;

/// Whether the caches are evicted right after realization: only when
/// eviction is enabled and a single grid is large.
pub fn evict_after_realization(eviction_enabled: bool, has_large_grid: bool) -> (r: bool)
    ensures
        r == (eviction_enabled && has_large_grid),
{
    eviction_enabled && has_large_grid
}

/// How a document's pages are laid out and kept.
#[derive(Clone, Copy, Debug, PartialEq, Eq, Structural)]
pub struct Strategy {
    /// Some grid has more than [`LARGE_GRID_ENTRIES`] entries.
    pub has_large_grid: bool,
    /// All grids together have at least [`MANY_TABLES_ENTRIES`] entries.
    pub has_many_tables: bool,
    /// Pages are laid out one at a time rather than in parallel runs.
    pub streaming_layout: bool,
    /// Pages go to the on-disk store from the first one on.
    pub flush_from_start: bool,
    /// The introspector is built page by page as the pages are stored.
    pub build_introspector: bool,
}

/// The strategy for a document, from the streaming-mode flag, whether some
/// grid is large, the entries of all grids together and the number of page
/// runs.
pub open spec fn strategy_for(
    streaming_mode: bool,
    has_large_grid: bool,
    cumulative_entries: nat,
    run_count: nat,
) -> Strategy {
    let many = cumulative_entries >= MANY_TABLES_ENTRIES;
    let streaming_layout = has_large_grid || (many && run_count <= STREAMING_MAX_RUNS);
    let flush = streaming_mode || streaming_layout || many;
    Strategy {
        has_large_grid,
        has_many_tables: many,
        streaming_layout,
        flush_from_start: flush,
        build_introspector: flush && !streaming_mode,
    }
}

/// Choose the layout strategy: lay out page by page for a large single
/// table or for many tables in few runs; flush to disk for every large
/// document; build the introspector incrementally unless a previous pass
/// already did (streaming mode).
pub fn choose_strategy(
    streaming_mode: bool,
    has_large_grid: bool,
    cumulative_entries: usize,
    run_count: usize,
) -> (s: Strategy)
    ensures
        s == strategy_for(streaming_mode, has_large_grid, cumulative_entries as nat, run_count as nat),
{
    let many = cumulative_entries >= MANY_TABLES_ENTRIES;
    let streaming_layout = has_large_grid || (many && run_count <= STREAMING_MAX_RUNS);
    let flush = streaming_mode || streaming_layout || many;
    Strategy {
        has_large_grid,
        has_many_tables: many,
        streaming_layout,
        flush_from_start: flush,
        build_introspector: flush && !streaming_mode,
    }
}

/// What a document's top-level items are.
#[derive(Clone, Copy, Debug, PartialEq, Eq, Structural)]
pub enum ItemKind {
    /// A run of pages with uniform properties.
    Run,
    /// A pagebreak to an even or odd page.
    Parity,
    /// Tags between page runs.
    Tags,
}

/// What the strategy comes to, in its inputs: a document holds many tables
/// from [`MANY_TABLES_ENTRIES`] grid entries on; it is laid out page by page
/// when some grid is large, or when it holds many tables in at most
/// [`STREAMING_MAX_RUNS`] page runs; its pages go to the store from the
/// start in streaming mode, and whenever some grid is large or it holds many
/// tables; and the introspector is built page by page exactly when pages go
/// to the store from the start outside streaming mode.
pub proof fn lemma_strategy_in_inputs(
    streaming_mode: bool,
    has_large_grid: bool,
    cumulative_entries: nat,
    runs: nat,
)
    ensures
        ({
            let s = strategy_for(streaming_mode, has_large_grid, cumulative_entries, runs);
            &&& s.has_large_grid == has_large_grid
            &&& s.has_many_tables == (cumulative_entries >= MANY_TABLES_ENTRIES)
            &&& s.streaming_layout == (has_large_grid || (cumulative_entries >= MANY_TABLES_ENTRIES
                && runs <= STREAMING_MAX_RUNS))
            &&& s.flush_from_start == (streaming_mode || has_large_grid || cumulative_entries
                >= MANY_TABLES_ENTRIES)
            &&& s.build_introspector == (!streaming_mode && (has_large_grid || cumulative_entries
                >= MANY_TABLES_ENTRIES))
            &&& s.build_introspector == (s.flush_from_start && !streaming_mode)
        }),
{
}

/// The number of page runs among `kinds`.
pub open spec fn run_count(kinds: Seq<ItemKind>) -> nat
    decreases kinds.len(),
{
    if kinds.len() == 0 {
        0
    } else {
        run_count(kinds.drop_last()) + if kinds.last() is Run {
            1nat
        } else {
            0nat
        }
    }
}

/// The number of page runs among `kinds`.
pub fn count_runs(kinds: &[ItemKind]) -> (n: usize)
    ensures
        n == run_count(kinds@),
{
    let mut n: usize = 0;
    let mut i: usize = 0;
    while i < kinds.len()
        invariant
            i <= kinds@.len(),
            n == run_count(kinds@.take(i as int)),
            n <= i,
        decreases kinds@.len() - i,
    {
        proof {
            assert(kinds@.take(i as int + 1).drop_last() =~= kinds@.take(i as int));
        }
        if kinds[i] == ItemKind::Run {
            n += 1;
        }
        i += 1;
    }
    proof {
        assert(kinds@.take(i as int) =~= kinds@);
    }
    n
}

/// Where finished pages go: memory or the on-disk store, and how many have
/// gone where.
pub struct PageFlow {
    has_large_grid: bool,
    flushing: bool,
    has_store: bool,
    has_introspector: bool,
    total_pages: usize,
    in_memory: usize,
    stored: usize,
}

/// What to do with one finished page.
#[derive(Clone, Copy, Debug, PartialEq, Eq, Structural)]
pub struct Placement {
    /// Before this page: create the store and the introspector, and move the
    /// pages held in memory into both, in order.
    pub start_flushing: bool,
    /// The page goes to the store; else it stays in memory.
    pub to_store: bool,
    /// The page is recorded in the introspector under this number.
    pub discover: Option<usize>,
    /// The page's number, counting from 0.
    pub number: usize,
}

impl PageFlow {
    /// Some grid of the document is large.
    pub closed spec fn has_large_grid(&self) -> bool {
        self.has_large_grid
    }

    /// Pages go to the store.
    pub closed spec fn flushing(&self) -> bool {
        self.flushing
    }

    /// The store exists.
    pub closed spec fn has_store(&self) -> bool {
        self.has_store
    }

    /// The introspector is built page by page.
    pub closed spec fn has_introspector(&self) -> bool {
        self.has_introspector
    }

    /// Pages finished so far.
    pub closed spec fn total_pages(&self) -> nat {
        self.total_pages as nat
    }

    /// Pages held in memory.
    pub closed spec fn in_memory(&self) -> nat {
        self.in_memory as nat
    }

    /// Pages written to the store.
    pub closed spec fn stored(&self) -> nat {
        self.stored as nat
    }

    /// Every page is in exactly one place; once flushing, memory is empty
    /// and the store exists; before, nothing is stored; a large grid keeps
    /// at most [`FLUSH_THRESHOLD`] pages in memory.
    pub closed spec fn wf(&self) -> bool {
        &&& self.total_pages == self.in_memory + self.stored
        &&& self.flushing ==> self.has_store && self.in_memory == 0
        &&& !self.flushing ==> self.stored == 0
        &&& self.has_large_grid ==> self.in_memory <= FLUSH_THRESHOLD
    }

    /// No page finished yet, under `strategy`.
    pub fn new(strategy: Strategy) -> (flow: Self)
        ensures
            flow.wf(),
            flow.has_large_grid() == strategy.has_large_grid,
            flow.flushing() == strategy.flush_from_start,
            flow.has_store() == strategy.flush_from_start,
            flow.has_introspector() == strategy.build_introspector,
            flow.total_pages() == 0,
            flow.in_memory() == 0,
            flow.stored() == 0,
    {
        PageFlow {
            has_large_grid: strategy.has_large_grid,
            flushing: strategy.flush_from_start,
            has_store: strategy.flush_from_start,
            has_introspector: strategy.build_introspector,
            total_pages: 0,
            in_memory: 0,
            stored: 0,
        }
    }

    /// Pages finished so far.
    pub fn total(&self) -> (n: usize)
        ensures
            n == self.total_pages(),
    {
        self.total_pages
    }

    /// Whether pages go to the store.
    pub fn is_flushing(&self) -> (b: bool)
        ensures
            b == self.flushing(),
    {
        self.flushing
    }

    /// Where the next finished page goes. A large-grid document that still
    /// keeps pages in memory starts flushing once the page would pass
    /// [`FLUSH_THRESHOLD`]; once flushing, every page goes to the store.
    pub fn place_page(&mut self) -> (p: Placement)
        requires
            old(self).wf(),
            old(self).total_pages() < usize::MAX,
        ensures
            final(self).wf(),
            p.number == old(self).total_pages(),
            p.start_flushing == (!old(self).flushing() && old(self).has_large_grid()
                && old(self).total_pages() + 1 > FLUSH_THRESHOLD),
            p.to_store == (old(self).flushing() || p.start_flushing),
            p.discover == (if p.to_store && (old(self).has_introspector() || p.start_flushing) {
                Some(p.number)
            } else {
                None
            }),
            final(self).has_large_grid() == old(self).has_large_grid(),
            final(self).flushing() == p.to_store,
            final(self).has_store() == (old(self).has_store() || p.start_flushing),
            final(self).has_introspector() == (old(self).has_introspector() || p.start_flushing),
            final(self).total_pages() == old(self).total_pages() + 1,
            final(self).in_memory() == (if p.to_store {
                0
            } else {
                old(self).in_memory() + 1
            }),
            final(self).stored() == (if p.start_flushing {
                old(self).in_memory() + 1
            } else if p.to_store {
                old(self).stored() + 1
            } else {
                old(self).stored()
            }),
    {
        let number = self.total_pages;
        let start = !self.flushing && self.has_large_grid && self.total_pages + 1
            > FLUSH_THRESHOLD;
        if start {
            self.has_store = true;
            self.has_introspector = true;
            self.stored = self.in_memory;
            self.in_memory = 0;
            self.flushing = true;
        }
        let discover = if self.flushing && self.has_introspector {
            Some(number)
        } else {
            None
        };
        if self.flushing {
            self.stored = self.stored + 1;
        } else {
            self.in_memory = self.in_memory + 1;
        }
        self.total_pages = self.total_pages + 1;
        Placement { start_flushing: start, to_store: self.flushing, discover, number }
    }
}

/// Where the tags left over after the last page go.
#[derive(Clone, Copy, Debug, PartialEq, Eq, Structural)]
pub enum TagsTarget {
    /// Nowhere: there are none, or no page to hold them.
    Nowhere,
    /// To the store, which adds them to the last page when it is read.
    Store,
    /// Onto the bottom of the last page held in memory.
    LastPage,
}

/// What to do with the tags left over after the last page.
#[derive(Clone, Copy, Debug, PartialEq, Eq, Structural)]
pub struct LeftoverTags {
    /// Where the tags go.
    pub target: TagsTarget,
    /// The page under which the introspector records them, if it is built.
    pub discover_on: Option<usize>,
    /// The page whose height positions them for the introspector; `None`
    /// for height zero.
    pub height_of: Option<usize>,
}

impl PageFlow {
    /// Where the tags left over after the last page go, if there are any.
    pub fn leftover_tags(&self, have_tags: bool) -> (l: LeftoverTags)
        requires
            self.wf(),
        ensures
            l.target == (if !have_tags {
                TagsTarget::Nowhere
            } else if self.has_store() {
                TagsTarget::Store
            } else if self.in_memory() > 0 {
                TagsTarget::LastPage
            } else {
                TagsTarget::Nowhere
            }),
            l.discover_on == (if l.target == TagsTarget::Store && self.has_introspector() {
                Some(
                    (if self.total_pages() > 0 {
                        self.total_pages() - 1
                    } else {
                        0
                    }) as usize,
                )
            } else {
                None
            }),
            l.height_of == (if l.discover_on is Some && self.total_pages() > 0 {
                Some((self.total_pages() - 1) as usize)
            } else {
                None
            }),
    {
        let target = if !have_tags {
            TagsTarget::Nowhere
        } else if self.has_store {
            TagsTarget::Store
        } else if self.in_memory > 0 {
            TagsTarget::LastPage
        } else {
            TagsTarget::Nowhere
        };
        let store = match target {
            TagsTarget::Store => true,
            _ => false,
        };
        let discover_on = if store && self.has_introspector {
            Some(self.total_pages.saturating_sub(1))
        } else {
            None
        };
        let height_of = if discover_on.is_some() && self.total_pages > 0 {
            Some(self.total_pages - 1)
        } else {
            None
        };
        LeftoverTags { target, discover_on, height_of }
    }
}

/// Every finished page is either in memory or in the store, never both and
/// never lost.
pub proof fn lemma_pages_accounted(flow: PageFlow)
    requires
        flow.wf(),
    ensures
        flow.total_pages() == flow.in_memory() + flow.stored(),
        flow.flushing() ==> flow.in_memory() == 0,
        !flow.flushing() ==> flow.stored() == 0,
{
}

/// A document with a large grid never holds more than [`FLUSH_THRESHOLD`]
/// finished pages in memory.
pub proof fn lemma_large_grid_bounds_memory(flow: PageFlow)
    requires
        flow.wf(),
        flow.has_large_grid(),
    ensures
        flow.in_memory() <= FLUSH_THRESHOLD,
{
}

/// What to free after a step of layout.
#[derive(Clone, Copy, Debug, PartialEq, Eq, Structural)]
pub enum Cleanup {
    /// Nothing.
    Nothing,
    /// Evict the memoization caches.
    Evict,
    /// Evict the caches and compact the heap.
    EvictAndCompact,
    /// Evict the caches, compact the heap and trim the working set.
    EvictAndTrim,
}

/// Whether the page-by-page eviction check can be computed for a page run
/// whose last eviction was at `last_evict_page`.
pub open spec fn page_cleanup_defined(
    has_large_grid: bool,
    flushing: bool,
    streaming_layout: bool,
    last_evict_page: nat,
) -> bool {
    if has_large_grid && flushing {
        last_evict_page + EVICT_INTERVAL <= usize::MAX
    } else if streaming_layout {
        last_evict_page + MULTI_TABLE_EVICT_INTERVAL <= usize::MAX
    } else {
        true
    }
}

/// What to free after a page laid out page by page, and the page count at
/// the last eviction afterwards.
pub open spec fn page_cleanup(
    has_large_grid: bool,
    flushing: bool,
    streaming_layout: bool,
    total_pages: nat,
    last_evict_page: nat,
) -> (Cleanup, nat) {
    if has_large_grid && flushing {
        if total_pages >= last_evict_page + EVICT_INTERVAL {
            if total_pages / (TRIM_INTERVAL as nat) > last_evict_page / (TRIM_INTERVAL as nat) {
                (Cleanup::EvictAndTrim, total_pages)
            } else {
                (Cleanup::EvictAndCompact, total_pages)
            }
        } else {
            (Cleanup::Nothing, last_evict_page)
        }
    } else if streaming_layout {
        if total_pages >= last_evict_page + MULTI_TABLE_EVICT_INTERVAL {
            (Cleanup::Evict, total_pages)
        } else {
            (Cleanup::Nothing, last_evict_page)
        }
    } else {
        (Cleanup::Nothing, last_evict_page)
    }
}

/// What to free after a page laid out page by page: for a large flushed
/// table, evict every [`EVICT_INTERVAL`] pages, with a full trim each time
/// a multiple of [`TRIM_INTERVAL`] pages is passed; for many tables, evict
/// every [`MULTI_TABLE_EVICT_INTERVAL`] pages. Also the page count at the
/// last eviction afterwards.
pub fn streaming_page_cleanup(
    has_large_grid: bool,
    flushing: bool,
    streaming_layout: bool,
    total_pages: usize,
    last_evict_page: usize,
) -> (r: (Cleanup, usize))
    requires
        page_cleanup_defined(has_large_grid, flushing, streaming_layout, last_evict_page as nat),
    ensures
        (r.0, r.1 as nat) == page_cleanup(
            has_large_grid,
            flushing,
            streaming_layout,
            total_pages as nat,
            last_evict_page as nat,
        ),
{
    if has_large_grid && flushing {
        if total_pages >= last_evict_page + EVICT_INTERVAL {
            if total_pages / TRIM_INTERVAL > last_evict_page / TRIM_INTERVAL {
                (Cleanup::EvictAndTrim, total_pages)
            } else {
                (Cleanup::EvictAndCompact, total_pages)
            }
        } else {
            (Cleanup::Nothing, last_evict_page)
        }
    } else if streaming_layout {
        if total_pages >= last_evict_page + MULTI_TABLE_EVICT_INTERVAL {
            (Cleanup::Evict, total_pages)
        } else {
            (Cleanup::Nothing, last_evict_page)
        }
    } else {
        (Cleanup::Nothing, last_evict_page)
    }
}

/// Page by page, the caches never go unevicted for a whole interval: after
/// each page, fewer than [`EVICT_INTERVAL`] pages (for a large flushed
/// table) or [`MULTI_TABLE_EVICT_INTERVAL`] pages (for many tables) have
/// passed since the last eviction. A full trim comes only when a multiple
/// of [`TRIM_INTERVAL`] pages has been passed since the last eviction.
pub proof fn lemma_evictions_keep_up(
    has_large_grid: bool,
    flushing: bool,
    streaming_layout: bool,
    total_pages: nat,
    last_evict_page: nat,
)
    requires
        last_evict_page <= total_pages,
        has_large_grid && flushing ==> total_pages < last_evict_page + EVICT_INTERVAL + 1,
        !(has_large_grid && flushing) && streaming_layout ==> total_pages < last_evict_page
            + MULTI_TABLE_EVICT_INTERVAL + 1,
    ensures
        ({
            let (cleanup, last) = page_cleanup(
                has_large_grid,
                flushing,
                streaming_layout,
                total_pages,
                last_evict_page,
            );
            &&& last <= total_pages
            &&& has_large_grid && flushing ==> total_pages - last < EVICT_INTERVAL
            &&& !(has_large_grid && flushing) && streaming_layout ==> total_pages - last
                < MULTI_TABLE_EVICT_INTERVAL
            &&& cleanup == Cleanup::EvictAndTrim ==> exists|m: nat|
                last_evict_page < #[trigger] (m * TRIM_INTERVAL) <= total_pages
        }),
{
    let (cleanup, last) = page_cleanup(
        has_large_grid,
        flushing,
        streaming_layout,
        total_pages,
        last_evict_page,
    );
    if cleanup == Cleanup::EvictAndTrim {
        let m = total_pages / (TRIM_INTERVAL as nat);
        assert(m * TRIM_INTERVAL <= total_pages) by (nonlinear_arith)
            requires
                m == total_pages / (TRIM_INTERVAL as nat),
        ;
        assert(last_evict_page < m * TRIM_INTERVAL) by (nonlinear_arith)
            requires
                m > last_evict_page / (TRIM_INTERVAL as nat),
        ;
    }
}

/// What to free when a page run laid out page by page is done: evict when
/// flushing, and trim too for a large table.
pub fn run_end_cleanup(flushing: bool, has_large_grid: bool) -> (c: Cleanup)
    ensures
        c == (if !flushing {
            Cleanup::Nothing
        } else if has_large_grid {
            Cleanup::EvictAndTrim
        } else {
            Cleanup::Evict
        }),
{
    if !flushing {
        Cleanup::Nothing
    } else if has_large_grid {
        Cleanup::EvictAndTrim
    } else {
        Cleanup::Evict
    }
}

/// What to free when a chunk of parallel page runs is done: for many
/// flushed tables, evict and trim, but only compact after the last chunk of
/// a group of runs.
pub fn chunk_cleanup(flushing: bool, has_many_tables: bool, last_of_group: bool) -> (c: Cleanup)
    ensures
        c == (if !(flushing && has_many_tables) {
            Cleanup::Nothing
        } else if last_of_group {
            Cleanup::EvictAndCompact
        } else {
            Cleanup::EvictAndTrim
        }),
{
    if !(flushing && has_many_tables) {
        Cleanup::Nothing
    } else if last_of_group {
        Cleanup::EvictAndCompact
    } else {
        Cleanup::EvictAndTrim
    }
}

/// One step of laying out a document's items in parallel chunks.
#[derive(Clone, Copy, Debug, PartialEq, Eq, Structural)]
pub enum Step {
    /// Lay out the page runs `start..end` in parallel; `last_of_group` if no
    /// page run follows them directly.
    Runs { start: usize, end: usize, last_of_group: bool },
    /// Handle the single item at `index`, which is no page run.
    Single { index: usize },
}

/// The end of the group of consecutive page runs from `i` on: the first
/// index at or after `i` that is no page run, or the length.
pub open spec fn group_end(kinds: Seq<ItemKind>, i: nat) -> nat
    decreases kinds.len() - i,
{
    if i < kinds.len() && kinds[i as int] is Run {
        group_end(kinds, i + 1)
    } else {
        i
    }
}

/// The page runs `k..j` in chunks of [`CHUNK_SIZE`].
pub open spec fn chunk_steps(k: nat, j: nat) -> Seq<Step>
    decreases j - k,
{
    if k >= j {
        Seq::empty()
    } else {
        let e: nat = if k + CHUNK_SIZE < j {
            k + CHUNK_SIZE as nat
        } else {
            j
        };
        seq![Step::Runs { start: k as usize, end: e as usize, last_of_group: e >= j }]
            + chunk_steps(e, j)
    }
}

/// A group of page runs starting at `i` ends where the first item that is
/// no page run stands, and is not empty if `i` is a page run.
pub proof fn lemma_group_end(kinds: Seq<ItemKind>, i: nat)
    requires
        i <= kinds.len(),
    ensures
        i <= group_end(kinds, i) <= kinds.len(),
        forall|t: int| i <= t < group_end(kinds, i) ==> #[trigger] kinds[t] is Run,
        group_end(kinds, i) < kinds.len() ==> !(kinds[group_end(kinds, i) as int] is Run),
        i < kinds.len() && kinds[i as int] is Run ==> group_end(kinds, i) > i,
    decreases kinds.len() - i,
{
    if i < kinds.len() && kinds[i as int] is Run {
        lemma_group_end(kinds, i + 1);
    }
}

/// The steps for `kinds` from index `i` on: each group of consecutive page
/// runs in chunks, every other item on its own.
pub open spec fn plan_from(kinds: Seq<ItemKind>, i: nat) -> Seq<Step>
    decreases kinds.len() - i,
{
    if i >= kinds.len() {
        Seq::empty()
    } else if kinds[i as int] is Run {
        let j = group_end(kinds, i);
        proof {
            lemma_group_end(kinds, i);
        }
        chunk_steps(i, j) + plan_from(kinds, j)
    } else {
        seq![Step::Single { index: i as usize }] + plan_from(kinds, i + 1)
    }
}

/// The order in which the parallel path takes a document's items: each
/// group of consecutive page runs in chunks of [`CHUNK_SIZE`], every other
/// item on its own.
pub fn parallel_plan(kinds: &[ItemKind]) -> (plan: Vec<Step>)
    ensures
        plan@ == plan_from(kinds@, 0),
{
    let n = kinds.len();
    let mut plan: Vec<Step> = Vec::new();
    let mut i: usize = 0;
    while i < n
        invariant
            n == kinds@.len(),
            i <= n,
            plan@ + plan_from(kinds@, i as nat) == plan_from(kinds@, 0),
        decreases n - i,
    {
        if kinds[i] == ItemKind::Run {
            let mut j = i;
            while j < n && kinds[j] == ItemKind::Run
                invariant
                    n == kinds@.len(),
                    i <= j <= n,
                    kinds@[i as int] is Run,
                    group_end(kinds@, j as nat) == group_end(kinds@, i as nat),
                decreases n - j,
            {
                j += 1;
            }
            proof {
                lemma_group_end(kinds@, i as nat);
                assert(group_end(kinds@, j as nat) == j);
                assert(plan_from(kinds@, i as nat) == chunk_steps(i as nat, j as nat) + plan_from(
                    kinds@,
                    j as nat,
                ));
            }
            let mut k = i;
            while k < j
                invariant
                    n == kinds@.len(),
                    i <= k <= j <= n,
                    plan@ + chunk_steps(k as nat, j as nat) + plan_from(kinds@, j as nat)
                        == plan_from(kinds@, 0),
                decreases j - k,
            {
                let e = if j - k > CHUNK_SIZE {
                    k + CHUNK_SIZE
                } else {
                    j
                };
                let ghost before = plan@;
                plan.push(Step::Runs { start: k, end: e, last_of_group: e >= j });
                proof {
                    let step = Step::Runs { start: k, end: e, last_of_group: e >= j };
                    assert(chunk_steps(k as nat, j as nat) == seq![step] + chunk_steps(
                        e as nat,
                        j as nat,
                    ));
                    assert(plan@ + chunk_steps(e as nat, j as nat) + plan_from(kinds@, j as nat)
                        =~= before + chunk_steps(k as nat, j as nat) + plan_from(
                        kinds@,
                        j as nat,
                    ));
                }
                k = e;
            }
            proof {
                assert(chunk_steps(j as nat, j as nat) =~= Seq::<Step>::empty());
                assert(plan@ + chunk_steps(j as nat, j as nat) =~= plan@);
            }
            i = j;
        } else {
            let ghost before = plan@;
            plan.push(Step::Single { index: i });
            proof {
                assert(plan_from(kinds@, i as nat) == seq![Step::Single { index: i }] + plan_from(
                    kinds@,
                    i as nat + 1,
                ));
                assert(plan@ + plan_from(kinds@, i as nat + 1) =~= before + plan_from(
                    kinds@,
                    i as nat,
                ));
            }
            i += 1;
        }
    }
    proof {
        assert(plan@ + plan_from(kinds@, i as nat) =~= plan@);
    }
    plan
}

/// The item indices that a step takes, in order.
pub open spec fn step_items(step: Step) -> Seq<nat> {
    match step {
        Step::Runs { start, end, .. } => Seq::new(
            (end - start) as nat,
            |t: int| (start + t) as nat,
        ),
        Step::Single { index } => seq![index as nat],
    }
}

/// The item indices that a list of steps takes, in order.
pub open spec fn plan_items(steps: Seq<Step>) -> Seq<nat>
    decreases steps.len(),
{
    if steps.len() == 0 {
        Seq::empty()
    } else {
        step_items(steps[0]) + plan_items(steps.drop_first())
    }
}

/// The indices `a..b`.
pub open spec fn index_range(a: nat, b: nat) -> Seq<nat> {
    Seq::new((b - a) as nat, |t: int| (a + t) as nat)
}

/// A step that fits `kinds`: a chunk of one to [`CHUNK_SIZE`] page runs,
/// marked last exactly when no page run follows it, or a single item that
/// is no page run.
pub open spec fn step_fits(kinds: Seq<ItemKind>, step: Step) -> bool {
    match step {
        Step::Runs { start, end, last_of_group } => {
            &&& start < end <= kinds.len()
            &&& end - start <= CHUNK_SIZE
            &&& forall|t: int| start <= t < end ==> #[trigger] kinds[t] is Run
            &&& last_of_group == (end == kinds.len() || !(kinds[end as int] is Run))
        },
        Step::Single { index } => index < kinds.len() && !(kinds[index as int] is Run),
    }
}

proof fn lemma_plan_items_append(a: Seq<Step>, b: Seq<Step>)
    ensures
        plan_items(a + b) == plan_items(a) + plan_items(b),
    decreases a.len(),
{
    if a.len() == 0 {
        assert(a + b =~= b);
    } else {
        lemma_plan_items_append(a.drop_first(), b);
        assert((a + b).drop_first() =~= a.drop_first() + b);
        assert((a + b)[0] == a[0]);
    }
}

proof fn lemma_chunks(kinds: Seq<ItemKind>, k: nat, j: nat)
    requires
        k <= j <= kinds.len() <= usize::MAX,
        forall|t: int| k <= t < j ==> #[trigger] kinds[t] is Run,
        j == kinds.len() || !(kinds[j as int] is Run),
    ensures
        plan_items(chunk_steps(k, j)) == index_range(k, j),
        forall|s: int| 0 <= s < chunk_steps(k, j).len() ==> step_fits(
            kinds,
            #[trigger] chunk_steps(k, j)[s],
        ),
    decreases j - k,
{
    if k >= j {
        assert(index_range(k, j) =~= Seq::<nat>::empty());
    } else {
        let e: nat = if k + CHUNK_SIZE < j {
            k + CHUNK_SIZE as nat
        } else {
            j
        };
        let step = Step::Runs { start: k as usize, end: e as usize, last_of_group: e >= j };
        lemma_chunks(kinds, e, j);
        let rest = chunk_steps(e, j);
        assert(chunk_steps(k, j) == seq![step] + rest);
        assert((seq![step] + rest).drop_first() =~= rest);
        assert(plan_items(chunk_steps(k, j)) == step_items(step) + plan_items(rest));
        assert(step_items(step) + index_range(e, j) =~= index_range(k, j));
        assert(step_fits(kinds, step));
        assert forall|s: int| 0 <= s < chunk_steps(k, j).len() implies step_fits(
            kinds,
            #[trigger] chunk_steps(k, j)[s],
        ) by {
            if s > 0 {
                assert(chunk_steps(k, j)[s] == rest[s - 1]);
            }
        }
    }
}

proof fn lemma_plan_from(kinds: Seq<ItemKind>, i: nat)
    requires
        i <= kinds.len() <= usize::MAX,
    ensures
        plan_items(plan_from(kinds, i)) == index_range(i, kinds.len()),
        forall|s: int| 0 <= s < plan_from(kinds, i).len() ==> step_fits(
            kinds,
            #[trigger] plan_from(kinds, i)[s],
        ),
    decreases kinds.len() - i,
{
    if i >= kinds.len() {
        assert(index_range(i, kinds.len()) =~= Seq::<nat>::empty());
    } else if kinds[i as int] is Run {
        let j = group_end(kinds, i);
        lemma_group_end(kinds, i);
        lemma_chunks(kinds, i, j);
        lemma_plan_from(kinds, j);
        let head = chunk_steps(i, j);
        let rest = plan_from(kinds, j);
        lemma_plan_items_append(head, rest);
        assert(index_range(i, j) + index_range(j, kinds.len()) =~= index_range(i, kinds.len()));
        assert forall|s: int| 0 <= s < plan_from(kinds, i).len() implies step_fits(
            kinds,
            #[trigger] plan_from(kinds, i)[s],
        ) by {
            if s < head.len() {
                assert(plan_from(kinds, i)[s] == head[s]);
            } else {
                assert(plan_from(kinds, i)[s] == rest[s - head.len()]);
            }
        }
    } else {
        lemma_plan_from(kinds, i + 1);
        let step = Step::Single { index: i as usize };
        let rest = plan_from(kinds, i + 1);
        assert((seq![step] + rest).drop_first() =~= rest);
        assert(seq![i] + index_range(i + 1, kinds.len()) =~= index_range(i, kinds.len()));
        assert forall|s: int| 0 <= s < plan_from(kinds, i).len() implies step_fits(
            kinds,
            #[trigger] plan_from(kinds, i)[s],
        ) by {
            if s > 0 {
                assert(plan_from(kinds, i)[s] == rest[s - 1]);
            }
        }
    }
}

/// The parallel path takes every item exactly once and in document order:
/// page runs in chunks of at most [`CHUNK_SIZE`] consecutive runs, each
/// chunk marked last exactly when no page run follows it, and every other
/// item on its own.
pub proof fn lemma_plan_takes_each_item_once(kinds: Seq<ItemKind>)
    requires
        kinds.len() <= usize::MAX,
    ensures
        plan_items(plan_from(kinds, 0)) == index_range(0, kinds.len()),
        forall|s: int| 0 <= s < plan_from(kinds, 0).len() ==> step_fits(
            kinds,
            #[trigger] plan_from(kinds, 0)[s],
        ),
{
    lemma_plan_from(kinds, 0);
}

} // verus!
