use typst_memtables::page_flow::{
    chunk_cleanup, choose_strategy, count_runs, evict_after_realization, parallel_plan,
    run_end_cleanup, streaming_page_cleanup, Cleanup, ItemKind, PageFlow, Step, Strategy,
    TagsTarget, FLUSH_THRESHOLD,
};

#[test]
fn large_grid_streams_and_flushes() {
    let s = choose_strategy(false, true, 0, 10);
    assert!(s.streaming_layout && s.flush_from_start && s.build_introspector);
    assert!(!s.has_many_tables);
}

#[test]
fn many_tables_in_few_runs_stream() {
    let s = choose_strategy(false, false, 50_000, 4);
    assert!(s.has_many_tables && s.streaming_layout && s.flush_from_start);
    let s = choose_strategy(false, false, 50_000, 5);
    assert!(s.has_many_tables && !s.streaming_layout && s.flush_from_start);
}

#[test]
fn small_documents_stay_in_memory() {
    let s = choose_strategy(false, false, 49_999, 1);
    assert_eq!(
        s,
        Strategy {
            has_large_grid: false,
            has_many_tables: false,
            streaming_layout: false,
            flush_from_start: false,
            build_introspector: false,
        }
    );
}

#[test]
fn streaming_mode_flushes_without_introspector() {
    let s = choose_strategy(true, false, 0, 1);
    assert!(s.flush_from_start && !s.build_introspector);
}

#[test]
fn eviction_after_realization_needs_both() {
    assert!(evict_after_realization(true, true));
    assert!(!evict_after_realization(true, false));
    assert!(!evict_after_realization(false, true));
}

#[test]
fn runs_are_counted() {
    let kinds = [ItemKind::Run, ItemKind::Tags, ItemKind::Run, ItemKind::Parity];
    assert_eq!(count_runs(&kinds), 2);
}

#[test]
fn flushing_starts_past_the_threshold() {
    let strategy = Strategy {
        has_large_grid: true,
        has_many_tables: false,
        streaming_layout: false,
        flush_from_start: false,
        build_introspector: false,
    };
    let mut flow = PageFlow::new(strategy);
    for n in 0..FLUSH_THRESHOLD {
        let p = flow.place_page();
        assert_eq!(p.number, n);
        assert!(!p.to_store && !p.start_flushing && p.discover.is_none());
    }
    let p = flow.place_page();
    assert!(p.start_flushing && p.to_store);
    assert_eq!(p.discover, Some(FLUSH_THRESHOLD));
    let p = flow.place_page();
    assert!(!p.start_flushing && p.to_store);
    assert_eq!(p.discover, Some(FLUSH_THRESHOLD + 1));
    assert!(flow.is_flushing());
    assert_eq!(flow.total(), FLUSH_THRESHOLD + 2);
}

#[test]
fn pages_stay_in_memory_without_a_large_grid() {
    let mut flow = PageFlow::new(choose_strategy(false, false, 0, 1));
    for _ in 0..100 {
        let p = flow.place_page();
        assert!(!p.to_store);
    }
    let tags = flow.leftover_tags(true);
    assert_eq!(tags.target, TagsTarget::LastPage);
    assert_eq!(tags.discover_on, None);
    assert_eq!(flow.leftover_tags(false).target, TagsTarget::Nowhere);
}

#[test]
fn leftover_tags_go_to_the_store_when_flushing() {
    let mut flow = PageFlow::new(choose_strategy(false, true, 0, 1));
    let p = flow.place_page();
    assert!(p.to_store);
    assert_eq!(p.discover, Some(0));
    flow.place_page();
    let tags = flow.leftover_tags(true);
    assert_eq!(tags.target, TagsTarget::Store);
    assert_eq!(tags.discover_on, Some(1));
    assert_eq!(tags.height_of, Some(1));

    let empty = PageFlow::new(choose_strategy(false, true, 0, 1));
    let tags = empty.leftover_tags(true);
    assert_eq!(tags.target, TagsTarget::Store);
    assert_eq!(tags.discover_on, Some(0));
    assert_eq!(tags.height_of, None);

    let nothing = PageFlow::new(choose_strategy(false, false, 0, 1));
    assert_eq!(nothing.leftover_tags(true).target, TagsTarget::Nowhere);
}

#[test]
fn large_table_evicts_every_five_pages_and_trims_every_twenty_five() {
    assert_eq!(streaming_page_cleanup(true, true, true, 4, 0), (Cleanup::Nothing, 0));
    assert_eq!(streaming_page_cleanup(true, true, true, 5, 0), (Cleanup::EvictAndCompact, 5));
    assert_eq!(streaming_page_cleanup(true, true, true, 25, 20), (Cleanup::EvictAndTrim, 25));
    assert_eq!(streaming_page_cleanup(true, true, true, 30, 25), (Cleanup::EvictAndCompact, 30));
}

#[test]
fn many_tables_evict_every_fifty_pages() {
    assert_eq!(streaming_page_cleanup(false, true, true, 49, 0), (Cleanup::Nothing, 0));
    assert_eq!(streaming_page_cleanup(false, true, true, 50, 0), (Cleanup::Evict, 50));
    assert_eq!(streaming_page_cleanup(true, false, true, 50, 0), (Cleanup::Evict, 50));
    assert_eq!(streaming_page_cleanup(false, false, false, 500, 0), (Cleanup::Nothing, 0));
}

#[test]
fn run_and_chunk_cleanups() {
    assert_eq!(run_end_cleanup(false, true), Cleanup::Nothing);
    assert_eq!(run_end_cleanup(true, true), Cleanup::EvictAndTrim);
    assert_eq!(run_end_cleanup(true, false), Cleanup::Evict);
    assert_eq!(chunk_cleanup(true, true, false), Cleanup::EvictAndTrim);
    assert_eq!(chunk_cleanup(true, true, true), Cleanup::EvictAndCompact);
    assert_eq!(chunk_cleanup(true, false, true), Cleanup::Nothing);
    assert_eq!(chunk_cleanup(false, true, true), Cleanup::Nothing);
}

#[test]
fn parallel_plan_chunks_runs_in_pairs() {
    let kinds = [
        ItemKind::Run,
        ItemKind::Run,
        ItemKind::Run,
        ItemKind::Parity,
        ItemKind::Run,
        ItemKind::Tags,
    ];
    assert_eq!(
        parallel_plan(&kinds),
        vec![
            Step::Runs { start: 0, end: 2, last_of_group: false },
            Step::Runs { start: 2, end: 3, last_of_group: true },
            Step::Single { index: 3 },
            Step::Runs { start: 4, end: 5, last_of_group: true },
            Step::Single { index: 5 },
        ]
    );
    assert!(parallel_plan(&[]).is_empty());
}
