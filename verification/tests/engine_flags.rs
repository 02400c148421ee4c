use typst_memtables::engine_flags::{
    add_grid_entries, cumulative_grid_entries, disable_cell_memoize_bypass,
    disable_layout_eviction, disable_streaming_mode, disable_table_level_bypass,
    enable_cell_memoize_bypass, enable_layout_eviction, enable_streaming_mode,
    enable_table_level_bypass, is_cell_memoize_bypassed, is_layout_eviction_enabled,
    is_streaming_mode, is_table_level_bypassed, reset_grid_entries, EngineFlags,
    TABLE_CACHE_ENTRY_LIMIT,
};

#[test]
fn layout_eviction_toggles() {
    let mut flags = EngineFlags::new();
    enable_layout_eviction(&mut flags);
    assert!(is_layout_eviction_enabled(&flags));
    disable_layout_eviction(&mut flags);
    assert!(!is_layout_eviction_enabled(&flags));
    enable_layout_eviction(&mut flags);
    assert!(is_layout_eviction_enabled(&flags));
}

#[test]
fn streaming_mode_toggles() {
    let mut flags = EngineFlags::new();
    disable_streaming_mode(&mut flags);
    assert!(!is_streaming_mode(&flags));
    enable_streaming_mode(&mut flags);
    assert!(is_streaming_mode(&flags));
    disable_streaming_mode(&mut flags);
    assert!(!is_streaming_mode(&flags));
}

#[test]
fn cell_memoize_bypass_toggles() {
    let mut flags = EngineFlags::new();
    disable_cell_memoize_bypass(&mut flags);
    assert!(!is_cell_memoize_bypassed(&flags));
    enable_cell_memoize_bypass(&mut flags);
    assert!(is_cell_memoize_bypassed(&flags));
    disable_cell_memoize_bypass(&mut flags);
    assert!(!is_cell_memoize_bypassed(&flags));
}

#[test]
fn table_level_bypass_toggles() {
    let mut flags = EngineFlags::new();
    disable_table_level_bypass(&mut flags);
    assert!(!is_table_level_bypassed(&flags));
    enable_table_level_bypass(&mut flags);
    assert!(is_table_level_bypassed(&flags));
    disable_table_level_bypass(&mut flags);
    assert!(!is_table_level_bypassed(&flags));
}

#[test]
fn grid_entry_counter_accumulates_and_resets() {
    let mut flags = EngineFlags::new();
    reset_grid_entries(&mut flags);
    assert_eq!(cumulative_grid_entries(&flags), 0);

    assert_eq!(add_grid_entries(&mut flags, 100), 100);
    assert_eq!(add_grid_entries(&mut flags, 250), 350);
    assert_eq!(cumulative_grid_entries(&flags), 350);

    reset_grid_entries(&mut flags);
    assert_eq!(cumulative_grid_entries(&flags), 0);

    assert_eq!(add_grid_entries(&mut flags, 1), 1);
    reset_grid_entries(&mut flags);
}

#[test]
fn flags_do_not_interfere_with_each_other() {
    let mut flags = EngineFlags::new();
    disable_layout_eviction(&mut flags);
    disable_streaming_mode(&mut flags);
    disable_cell_memoize_bypass(&mut flags);
    disable_table_level_bypass(&mut flags);

    enable_streaming_mode(&mut flags);
    assert!(is_streaming_mode(&flags));
    assert!(!is_layout_eviction_enabled(&flags));
    assert!(!is_cell_memoize_bypassed(&flags));
    assert!(!is_table_level_bypassed(&flags));

    enable_cell_memoize_bypass(&mut flags);
    assert!(is_streaming_mode(&flags));
    assert!(is_cell_memoize_bypassed(&flags));
    assert!(!is_table_level_bypassed(&flags));

    disable_streaming_mode(&mut flags);
    disable_cell_memoize_bypass(&mut flags);
}

#[test]
fn fresh_flags_start_with_eviction_on_and_the_rest_off() {
    let flags = EngineFlags::new();
    assert!(is_layout_eviction_enabled(&flags));
    assert!(!is_streaming_mode(&flags));
    assert!(!is_cell_memoize_bypassed(&flags));
    assert!(!is_table_level_bypassed(&flags));
    assert_eq!(cumulative_grid_entries(&flags), 0);
}

#[test]
fn grid_entry_counter_reaches_the_table_cache_limit() {
    let mut flags = EngineFlags::new();
    add_grid_entries(&mut flags, TABLE_CACHE_ENTRY_LIMIT - 1);
    assert!(cumulative_grid_entries(&flags) < TABLE_CACHE_ENTRY_LIMIT);
    assert_eq!(add_grid_entries(&mut flags, 1), 8_000_000);
}
