//! Flags that control optimization behavior during compilation.
//!
//! The flags are process-wide switches in a running compiler. Here they are
//! held in an [`EngineFlags`] value; the driver keeps one instance alive for
//! the whole compilation and hands it to the functions below.

use vstd::prelude::*;

verus! {

/// Threshold for cumulative grid entries beyond which table caching is
/// disabled and aggressive eviction is used between iterations.
pub const TABLE_CACHE_ENTRY_LIMIT: usize = 8_000_000;

/// The abstract state of all engine flags.
pub struct FlagState {
    /// Whether memory-saving eviction is performed during layout.
    pub eviction_enabled: bool,
    /// Whether streaming (non-memoized) layout mode is active.
    pub streaming_mode: bool,
    /// Whether layout during grid cell layout skips memoization.
    pub cell_memoize_bypass: bool,
    /// Total grid entries seen in the current layout pass.
    pub cumulative_grid_entries: nat,
    /// Whether table-level layout bypasses memoization.
    pub table_level_bypass: bool,
}

/// The set of global optimization flags of one compilation.
pub struct EngineFlags {
    eviction_enabled: bool,
    streaming_mode: bool,
    cell_memoize_bypass: bool,
    cumulative_grid_entries: usize,
    table_level_bypass: bool,
}

impl View for EngineFlags {
    type V = FlagState;

    closed spec fn view(&self) -> FlagState {
        FlagState {
            eviction_enabled: self.eviction_enabled,
            streaming_mode: self.streaming_mode,
            cell_memoize_bypass: self.cell_memoize_bypass,
            cumulative_grid_entries: self.cumulative_grid_entries as nat,
            table_level_bypass: self.table_level_bypass,
        }
    }
}

impl EngineFlags {
    /// The flags as a process starts with them: eviction enabled, every
    /// other switch off, and the grid entry counter at zero.
    pub fn new() -> (flags: EngineFlags)
        ensures
            flags@ == (FlagState {
                eviction_enabled: true,
                streaming_mode: false,
                cell_memoize_bypass: false,
                cumulative_grid_entries: 0,
                table_level_bypass: false,
            }),
    {
        EngineFlags {
            eviction_enabled: true,
            streaming_mode: false,
            cell_memoize_bypass: false,
            cumulative_grid_entries: 0,
            table_level_bypass: false,
        }
    }
}

/// Enable layout-time cache eviction (first convergence iteration).
pub fn enable_layout_eviction(flags: &mut EngineFlags)
    ensures
        final(flags)@ == (FlagState { eviction_enabled: true, ..old(flags)@ }),
{
    flags.eviction_enabled = true;
}

/// Disable layout-time cache eviction (subsequent convergence iterations).
pub fn disable_layout_eviction(flags: &mut EngineFlags)
    ensures
        final(flags)@ == (FlagState { eviction_enabled: false, ..old(flags)@ }),
{
    flags.eviction_enabled = false;
}

/// Check if layout-time eviction is currently enabled.
pub fn is_layout_eviction_enabled(flags: &EngineFlags) -> (b: bool)
    ensures
        b == flags@.eviction_enabled,
{
    flags.eviction_enabled
}

/// Enable streaming layout mode (no memoization).
pub fn enable_streaming_mode(flags: &mut EngineFlags)
    ensures
        final(flags)@ == (FlagState { streaming_mode: true, ..old(flags)@ }),
{
    flags.streaming_mode = true;
}

/// Disable streaming layout mode (back to normal memoized layout).
pub fn disable_streaming_mode(flags: &mut EngineFlags)
    ensures
        final(flags)@ == (FlagState { streaming_mode: false, ..old(flags)@ }),
{
    flags.streaming_mode = false;
}

/// Check if streaming mode is currently active.
pub fn is_streaming_mode(flags: &EngineFlags) -> (b: bool)
    ensures
        b == flags@.streaming_mode,
{
    flags.streaming_mode
}

/// Enable cell memoization bypass (during grid cell layout).
pub fn enable_cell_memoize_bypass(flags: &mut EngineFlags)
    ensures
        final(flags)@ == (FlagState { cell_memoize_bypass: true, ..old(flags)@ }),
{
    flags.cell_memoize_bypass = true;
}

/// Disable cell memoization bypass (normal layout).
pub fn disable_cell_memoize_bypass(flags: &mut EngineFlags)
    ensures
        final(flags)@ == (FlagState { cell_memoize_bypass: false, ..old(flags)@ }),
{
    flags.cell_memoize_bypass = false;
}

/// Check if cell memoization bypass is active.
pub fn is_cell_memoize_bypassed(flags: &EngineFlags) -> (b: bool)
    ensures
        b == flags@.cell_memoize_bypass,
{
    flags.cell_memoize_bypass
}

/// The flags with `count` more grid entries counted.
pub open spec fn with_entries_added(f: FlagState, count: nat) -> FlagState {
    FlagState { cumulative_grid_entries: f.cumulative_grid_entries + count, ..f }
}

/// The flags with the grid entry counter back at zero.
pub open spec fn with_entries_reset(f: FlagState) -> FlagState {
    FlagState { cumulative_grid_entries: 0, ..f }
}

/// The flags after adding each of `counts` in turn.
pub open spec fn after_adds(f: FlagState, counts: Seq<nat>) -> FlagState
    decreases counts.len(),
{
    if counts.len() == 0 {
        f
    } else {
        with_entries_added(after_adds(f, counts.drop_last()), counts.last())
    }
}

/// The sum of `counts`.
pub open spec fn total_of(counts: Seq<nat>) -> nat
    decreases counts.len(),
{
    if counts.len() == 0 {
        0
    } else {
        total_of(counts.drop_last()) + counts.last()
    }
}

/// After a reset, the grid entry counter holds the sum of all entries added
/// since, after each addition the sum so far, and no other flag changes.
pub proof fn lemma_grid_entries_running_sum(f: FlagState, counts: Seq<nat>)
    ensures
        after_adds(with_entries_reset(f), counts) == (FlagState {
            cumulative_grid_entries: total_of(counts),
            ..f
        }),
        forall|k: int|
            0 <= k <= counts.len() ==> #[trigger] after_adds(
                with_entries_reset(f),
                counts.take(k),
            ).cumulative_grid_entries == total_of(counts.take(k)),
    decreases counts.len(),
{
    if counts.len() > 0 {
        lemma_grid_entries_running_sum(f, counts.drop_last());
    }
    assert forall|k: int| 0 <= k <= counts.len() implies #[trigger] after_adds(
        with_entries_reset(f),
        counts.take(k),
    ).cumulative_grid_entries == total_of(counts.take(k)) by {
        if k < counts.len() {
            assert(counts.take(k) =~= counts.drop_last().take(k));
        } else {
            assert(counts.take(k) =~= counts);
        }
    }
}

/// Add entries to the cumulative grid counter and return the new total.
///
/// A total beyond `usize::MAX` is an arithmetic overflow in the caller's
/// addition, so it is ruled out.
pub fn add_grid_entries(flags: &mut EngineFlags, count: usize) -> (total: usize)
    requires
        old(flags)@.cumulative_grid_entries + count <= usize::MAX,
    ensures
        total == old(flags)@.cumulative_grid_entries + count,
        final(flags)@ == with_entries_added(old(flags)@, count as nat),
{
    flags.cumulative_grid_entries = flags.cumulative_grid_entries + count;
    flags.cumulative_grid_entries
}

/// Reset the cumulative grid entry counter (between iterations).
pub fn reset_grid_entries(flags: &mut EngineFlags)
    ensures
        final(flags)@ == with_entries_reset(old(flags)@),
{
    flags.cumulative_grid_entries = 0;
}

/// Get the current cumulative grid entry count.
pub fn cumulative_grid_entries(flags: &EngineFlags) -> (n: usize)
    ensures
        n == flags@.cumulative_grid_entries,
{
    flags.cumulative_grid_entries
}

/// Enable table-level memoize bypass.
pub fn enable_table_level_bypass(flags: &mut EngineFlags)
    ensures
        final(flags)@ == (FlagState { table_level_bypass: true, ..old(flags)@ }),
{
    flags.table_level_bypass = true;
}

/// Disable table-level memoize bypass.
pub fn disable_table_level_bypass(flags: &mut EngineFlags)
    ensures
        final(flags)@ == (FlagState { table_level_bypass: false, ..old(flags)@ }),
{
    flags.table_level_bypass = false;
}

/// Check if table-level memoize bypass is active.
pub fn is_table_level_bypassed(flags: &EngineFlags) -> (b: bool)
    ensures
        b == flags@.table_level_bypass,
{
    flags.table_level_bypass
}

} // verus!
