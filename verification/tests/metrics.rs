//! What builds measure, one by one and together.
use umf_builder::bench::{sorted_totals, summarise, Averages, BenchReport};
use umf_builder::metrics::{human_bytes, BuildMetrics, MetricsLayer};

fn averages(mean: &str, median: u128, p99: u128) -> Averages {
    Averages { mean: mean.to_string(), median, p99 }
}

fn metrics_with_total(ms: u128) -> BuildMetrics {
    BuildMetrics {
        total_ms: ms,
        layer_count: Some(3),
        total_layer_bytes: Some(1024),
        ..BuildMetrics::default()
    }
}

#[test]
fn builder_finish_records_total_ms() {
    let builder = BuildMetrics::start(1_000);
    let m = builder.finish(1_010);
    assert!(m.total_ms >= 10, "got: {}", m.total_ms);
    assert_eq!(m.layer_count, None);
}

#[test]
fn finish_with_image_captures_layer_stats() {
    let builder = BuildMetrics::start(0);
    let m = builder.finish_with_image(3, 12_345, Some(8_000), 7);
    assert_eq!(m.layer_count, Some(3));
    assert_eq!(m.total_layer_bytes, Some(12_345));
    assert_eq!(m.pushed_bytes, Some(8_000));
    assert_eq!(m.total_ms, 7);
}

#[test]
fn render_text_includes_total_and_phases() {
    let mut m = BuildMetrics {
        total_ms: 1234,
        layer_count: Some(2),
        total_layer_bytes: Some(2048),
        pushed_bytes: Some(512),
        ..BuildMetrics::default()
    };
    m.phases_ms.insert("umf.parse".to_string(), 5);
    m.phase_counts.insert("umf.parse".to_string(), 1);
    m.phases_ms.insert("umf.engine.run_step".to_string(), 800);
    m.phase_counts.insert("umf.engine.run_step".to_string(), 3);

    let text = m.render_text();
    assert!(text.contains("Build summary"));
    assert!(text.contains("umf.parse"));
    assert!(text.contains("5 ms"));
    assert!(text.contains("umf.engine.run_step"));
    assert!(text.contains("(3× total"));
    assert!(text.contains("total: 1234 ms"));
    assert!(text.contains("2 layer(s)"));
    assert!(text.contains("pushed"));
    assert_eq!(
        text,
        "Build summary\n─────────────\n\
         umf.engine.run_step               800 ms  (3× total, last)\n\
         umf.parse                           5 ms\n\
         ─────────────\nimage: 2 layer(s), 2.00 Ki compressed bytes\n\
         push: 512 B pushed\n─────────────\ntotal: 1234 ms\n"
    );
}

#[test]
fn human_bytes_thresholds() {
    assert_eq!(human_bytes(0), "0 B");
    assert_eq!(human_bytes(512), "512 B");
    assert_eq!(human_bytes(1024), "1.00 Ki");
    assert_eq!(human_bytes(1_500_000), "1.43 Mi");
    assert!(human_bytes(2_000_000_000).contains("Gi"));
}

#[test]
fn human_bytes_agrees_with_floating_point() {
    let by_float = |bytes: i64| {
        let b = bytes.max(0) as f64;
        let (ki, mi, gi) = (1024.0, 1024.0 * 1024.0, 1024.0 * 1024.0 * 1024.0);
        if b >= gi {
            format!("{:.2} Gi", b / gi)
        } else if b >= mi {
            format!("{:.2} Mi", b / mi)
        } else if b >= ki {
            format!("{:.2} Ki", b / ki)
        } else {
            format!("{b:.0} B")
        }
    };
    let mut n: i64 = 1;
    while n < i64::MAX / 3 {
        for d in [-1, 0, 1] {
            assert_eq!(human_bytes(n + d), by_float(n + d), "{}", n + d);
        }
        n = n + n / 7 + 1;
    }
    for n in [i64::MAX, i64::MAX - 1, i64::MIN, -1, 1029, 1034, 1039, 5 * 1024 + 5, 1_048_575] {
        assert_eq!(human_bytes(n), by_float(n), "{n}");
    }
    for n in 1024..6000 {
        assert_eq!(human_bytes(n), by_float(n), "{n}");
    }
}

#[test]
fn render_text_without_image_or_push() {
    let m = BuildMetrics { total_ms: 42, ..BuildMetrics::default() };
    let text = m.render_text();
    assert!(text.contains("total: 42 ms"));
    assert!(!text.contains("layer(s)"));
    assert!(!text.contains("pushed"));
}

#[test]
fn only_spans_of_the_build_are_phases() {
    let mut layer = MetricsLayer::new();
    let mut builder = BuildMetrics::start(0);
    layer.on_new_span("umf.parse", 1, 10);
    layer.on_new_span("hyper.request", 2, 10);
    layer.on_close(2, Some("hyper.request"), 40, builder.shared());
    layer.on_close(1, Some("umf.parse"), 25, builder.shared());
    layer.on_new_span("umf.parse", 3, 30);
    layer.on_close(3, Some("umf.parse"), 37, builder.shared());
    layer.on_close(3, Some("umf.parse"), 99, builder.shared());
    let m = builder.finish(50);
    assert_eq!(m.phases_ms.len(), 1);
    assert_eq!(m.phases_ms.get("umf.parse"), Some(&7));
    assert_eq!(m.phase_counts.get("umf.parse"), Some(&2));
}

#[test]
fn a_clock_that_goes_back_measures_nothing() {
    assert_eq!(BuildMetrics::start(10).finish(3).total_ms, 0);
}

#[test]
fn summarise_reports_min_max_mean() {
    let runs =
        vec![metrics_with_total(100), metrics_with_total(200), metrics_with_total(150)];
    assert_eq!(sorted_totals(&runs), vec![100, 150, 200]);
    let s = summarise(&runs, averages("150.0", 150, 199));
    assert_eq!(s.n, 3);
    assert_eq!(s.total_ms.min, 100);
    assert_eq!(s.total_ms.max, 200);
    assert_eq!(s.total_ms.averages.mean, "150.0");
    assert_eq!(s.total_ms.averages.median, 150);
    assert_eq!(s.layer_count_range, (3, 3));
    assert_eq!(s.total_layer_bytes_range, (1024, 1024));
}

fn varied(total_ms: u128, layers: usize) -> BuildMetrics {
    BuildMetrics {
        total_ms,
        layer_count: Some(layers),
        total_layer_bytes: Some(2048),
        ..BuildMetrics::default()
    }
}

#[test]
fn summarise_flags_layer_count_variance() {
    let runs = vec![metrics_with_total(100), varied(110, 4)];
    let s = summarise(&runs, averages("105.0", 105, 109));
    assert_eq!(s.layer_count_range, (3, 4));
    assert_eq!(s.total_layer_bytes_range, (1024, 2048));
}

#[test]
fn runs_without_an_image_count_for_no_range() {
    let bare = BuildMetrics { total_ms: 5, ..BuildMetrics::default() };
    let s = summarise(&vec![bare], averages("5.0", 5, 5));
    assert_eq!(s.layer_count_range, (0, 0));
    assert_eq!(s.total_layer_bytes_range, (0, 0));
}

#[test]
fn aggregate_no_warm_runs_yields_no_summary() {
    let cold = metrics_with_total(500);
    let report = BenchReport::aggregate(
        "/tmp/recipe.umf".to_string(),
        0,
        Some(cold),
        vec![],
        averages("0.0", 0, 0),
    );
    assert!(report.warm_summary.is_none());
    assert_eq!(report.runs, 0);
}

#[test]
fn aggregate_with_warm_runs_yields_summary() {
    let cold = metrics_with_total(500);
    let warm = vec![metrics_with_total(100), metrics_with_total(120), metrics_with_total(110)];
    let report = BenchReport::aggregate(
        "/tmp/recipe.umf".to_string(),
        0,
        Some(cold),
        warm,
        averages("110.0", 110, 119),
    );
    let s = report.warm_summary.expect("summary set");
    assert_eq!(s.n, 3);
    assert_eq!(s.total_ms.min, 100);
    assert_eq!(s.total_ms.max, 120);
}

#[test]
fn render_text_contains_cold_and_warm_lines() {
    let cold = metrics_with_total(500);
    let warm = vec![metrics_with_total(100), metrics_with_total(110)];
    let report = BenchReport::aggregate(
        "/tmp/r.umf".to_string(),
        1,
        Some(cold),
        warm,
        averages("105.0", 105, 109),
    );
    let text = report.render_text();
    assert!(text.contains("Bench report"));
    assert!(text.contains("/tmp/r.umf"));
    assert!(text.contains("cold:"));
    assert!(text.contains("warm (2 runs)"));
    assert!(text.contains("median"));
    assert_eq!(
        text,
        "Bench report — /tmp/r.umf\n  runs: cold + 2 warm (with 1 warmup)\n─────────────\n\
         cold:     500 ms   3 layer(s)   1.00 Ki compressed\n─────────────\n\
         warm (2 runs): median 105 ms  p99 109 ms  min 100  max 110  mean 105.0\n"
    );
}

#[test]
fn render_text_flags_variance() {
    let warm = vec![metrics_with_total(100), varied(110, 5)];
    let report = BenchReport::aggregate(
        "/tmp/r.umf".to_string(),
        0,
        None,
        warm,
        averages("105.0", 105, 109),
    );
    let text = report.render_text();
    assert!(text.contains("⚠ layer count varied"));
    assert!(text.contains("⚠ total layer bytes varied"));
}

#[test]
fn the_order_of_the_runs_does_not_matter() {
    let forward = vec![varied(120, 3), varied(90, 5), varied(100, 4)];
    let back = vec![varied(100, 4), varied(90, 5), varied(120, 3)];
    let a = summarise(&forward, averages("103.3", 100, 120));
    let b = summarise(&back, averages("103.3", 100, 120));
    assert_eq!((a.n, a.total_ms.min, a.total_ms.max), (b.n, b.total_ms.min, b.total_ms.max));
    assert_eq!((a.total_ms.min, a.total_ms.max), (90, 120));
    assert_eq!(a.layer_count_range, (3, 5));
    assert_eq!(a.layer_count_range, b.layer_count_range);
    assert_eq!(a.total_layer_bytes_range, b.total_layer_bytes_range);
    assert_eq!(sorted_totals(&forward), sorted_totals(&back));
}
