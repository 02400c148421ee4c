use typst_memtables::cli_progress::{describe, human_bytes, percent_for, CliSink, Mode};
use typst_memtables::progress::Event;

#[test]
fn percent_is_monotonic_across_pipeline() {
    let seq = [
        (Event::Stage("eval"), 5),
        (Event::Stage("layout"), 10),
        (Event::Iteration(1), 10),
        (Event::Iteration(2), 15),
        (Event::Iteration(5), 30),
        (Event::Pages(100), 40),
        (Event::Stage("export"), 40),
        (Event::PageEmitted { done: 1, total: 100 }, 40),
        (Event::PageEmitted { done: 50, total: 100 }, 67),
        (Event::PageEmitted { done: 100, total: 100 }, 95),
        (Event::Wrote { bytes: 0 }, 100),
    ];
    let mut last = 0u8;
    for (event, expected) in seq {
        let got = percent_for(&event);
        assert_eq!(got, expected, "event {event:?}");
        assert!(got >= last, "percent went backwards: {last} -> {got}");
        last = got;
    }
}

#[test]
fn percent_handles_zero_pages_gracefully() {
    let pct = percent_for(&Event::PageEmitted { done: 0, total: 0 });
    assert_eq!(pct, 95);
}

#[test]
fn percent_caps_iteration_weight() {
    assert_eq!(percent_for(&Event::Iteration(100)), 30);
}

#[test]
fn human_bytes_picks_appropriate_unit() {
    assert_eq!(human_bytes(0), "0 B");
    assert_eq!(human_bytes(1023), "1023 B");
    assert_eq!(human_bytes(1024), "1.0 KB");
    assert_eq!(human_bytes(1536), "1.5 KB");
    assert_eq!(human_bytes(1024 * 1024), "1.0 MB");
    assert_eq!(human_bytes(1024 * 1024 * 1024), "1.0 GB");
    assert_eq!(human_bytes(5 * 1024 * 1024 * 1024), "5.0 GB");
}

#[test]
fn describe_emits_expected_strings() {
    assert_eq!(describe(&Event::Stage("eval")), "eval");
    assert_eq!(describe(&Event::Iteration(3)), "layout iteration 3");
    assert_eq!(describe(&Event::Pages(42)), "layout converged, 42 page(s)");
    assert_eq!(describe(&Event::PageEmitted { done: 10, total: 237 }), "export 10/237");
    assert_eq!(describe(&Event::Wrote { bytes: 1024 * 1024 }), "wrote (1.0 MB)");
}

#[test]
fn human_bytes_matches_float_formatting() {
    for bytes in [
        1024u64,
        1280,
        1792,
        1_048_575,
        1_048_576 * 3 / 2,
        123_456_789,
        987_654_321_012,
        (1u64 << 53) + 1,
        (1u64 << 60) + 12345,
        u64::MAX,
    ] {
        let expected = if bytes >= 1 << 30 {
            format!("{:.1} GB", bytes as f64 / (1u64 << 30) as f64)
        } else if bytes >= 1 << 20 {
            format!("{:.1} MB", bytes as f64 / (1u64 << 20) as f64)
        } else {
            format!("{:.1} KB", bytes as f64 / 1024.0)
        };
        assert_eq!(human_bytes(bytes), expected, "bytes {bytes}");
    }
}

#[test]
fn human_bytes_rounds_ties_to_even() {
    assert_eq!(human_bytes(1280), "1.2 KB");
    assert_eq!(human_bytes(1792), "1.8 KB");
    assert_eq!(human_bytes(1_048_575), "1024.0 KB");
}

#[test]
fn unknown_stage_counts_as_two_percent() {
    assert_eq!(percent_for(&Event::Stage("pdf")), 2);
    assert_eq!(percent_for(&Event::Iteration(0)), 10);
    assert_eq!(percent_for(&Event::PageEmitted { done: 500, total: 100 }), 95);
}

#[test]
fn verbose_sink_logs_stages_and_thins_out_pages() {
    let mut sink = CliSink::new(Mode::Verbose);
    let lines = sink.report(Event::Stage("eval"));
    assert_eq!(lines.stage.as_deref(), Some("stage: eval"));
    assert!(lines.progress.is_none());

    let lines = sink.report(Event::PageEmitted { done: 1, total: 2000 });
    assert_eq!(lines.stage.as_deref(), Some("export 1/2000"));
    // The step is max(2000 / 20, 50) = 100 pages.
    let lines = sink.report(Event::PageEmitted { done: 100, total: 2000 });
    assert!(lines.stage.is_none());
    let lines = sink.report(Event::PageEmitted { done: 101, total: 2000 });
    assert_eq!(lines.stage.as_deref(), Some("export 101/2000"));
    let lines = sink.report(Event::PageEmitted { done: 2000, total: 2000 });
    assert_eq!(lines.stage.as_deref(), Some("export 2000/2000"));

    let lines = sink.report(Event::Wrote { bytes: 1536 });
    assert_eq!(lines.stage.as_deref(), Some("wrote output (1.5 KB)"));
    let lines = sink.report(Event::Pages(3));
    assert_eq!(lines.stage.as_deref(), Some("layout converged, 3 page(s)"));
    let lines = sink.report(Event::Iteration(2));
    assert_eq!(lines.stage.as_deref(), Some("layout iteration 2"));
}

#[test]
fn progress_sink_prints_stages_always_and_pages_when_advancing() {
    let mut sink = CliSink::new(Mode::Progress);
    let lines = sink.report(Event::Stage("eval"));
    assert!(lines.stage.is_none());
    assert_eq!(lines.progress.as_deref(), Some("  5% eval"));

    // Stage boundaries print even at an unchanged percentage.
    let lines = sink.report(Event::Stage("eval"));
    assert_eq!(lines.progress.as_deref(), Some("  5% eval"));

    let lines = sink.report(Event::Stage("layout"));
    assert_eq!(lines.progress.as_deref(), Some(" 10% layout"));
    let lines = sink.report(Event::Iteration(1));
    assert_eq!(lines.progress.as_deref(), Some(" 10% layout iteration 1"));
    let lines = sink.report(Event::Pages(100));
    assert_eq!(lines.progress.as_deref(), Some(" 40% layout converged, 100 page(s)"));
    let lines = sink.report(Event::Stage("export"));
    assert_eq!(lines.progress.as_deref(), Some(" 40% export"));

    // Page events print only when the percentage advances.
    let lines = sink.report(Event::PageEmitted { done: 1, total: 100 });
    assert!(lines.progress.is_none());
    let lines = sink.report(Event::PageEmitted { done: 10, total: 100 });
    assert_eq!(lines.progress.as_deref(), Some(" 45% export 10/100"));
    let lines = sink.report(Event::PageEmitted { done: 10, total: 100 });
    assert!(lines.progress.is_none());

    let lines = sink.report(Event::Wrote { bytes: 10 });
    assert_eq!(lines.progress.as_deref(), Some("100% wrote (10 B)"));
    let lines = sink.report(Event::Wrote { bytes: 10 });
    assert_eq!(lines.progress.as_deref(), Some("100% wrote (10 B)"));
}

#[test]
fn both_mode_prints_both_kinds() {
    let mut sink = CliSink::new(Mode::Both);
    let lines = sink.report(Event::Stage("export"));
    assert_eq!(lines.stage.as_deref(), Some("stage: export"));
    assert_eq!(lines.progress.as_deref(), Some(" 40% export"));
}
