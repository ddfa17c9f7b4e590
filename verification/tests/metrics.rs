use rolly::metrics::{
    ExemplarValue, Histogram, InstrumentKind, MetricSnapshot, MetricsRegistry, Outcome,
    TraceContext,
};

fn bits(values: &[f64]) -> Vec<u64> {
    values.iter().map(|v| v.to_bits()).collect()
}

fn plus(a: u64, b: u64) -> u64 {
    (f64::from_bits(a) + f64::from_bits(b)).to_bits()
}

fn observe(h: &Histogram, registry: &mut MetricsRegistry, value: f64, attrs: &[(&str, &str)]) -> Outcome {
    h.observe(registry, value.to_bits(), attrs, &None, plus)
}

#[test]
fn counter_add_accumulates() {
    let mut registry = MetricsRegistry::new();
    let c = registry.counter("req_total", "Total requests");
    c.add(&mut registry, 1, &[("method", "GET")], &None);
    c.add(&mut registry, 3, &[("method", "GET")], &None);
    c.add(&mut registry, 1, &[("method", "POST")], &None);

    let snapshots = registry.collect();
    assert_eq!(snapshots.len(), 1);
    match &snapshots[0] {
        MetricSnapshot::Counter {
            name, data_points, ..
        } => {
            assert_eq!(name, "req_total");
            assert_eq!(data_points.len(), 2);
            let get_val = data_points
                .iter()
                .find(|(a, _, _)| a[0].1 == "GET")
                .unwrap()
                .1;
            assert_eq!(get_val, 4);
            let post_val = data_points
                .iter()
                .find(|(a, _, _)| a[0].1 == "POST")
                .unwrap()
                .1;
            assert_eq!(post_val, 1);
        }
        _ => panic!("expected Counter snapshot"),
    }
}

#[test]
fn gauge_set_overwrites() {
    let mut registry = MetricsRegistry::new();
    let g = registry.gauge("cpu_usage", "CPU usage");
    g.set(&mut registry, 50.0f64.to_bits(), &[("core", "0")], &None);
    g.set(&mut registry, 75.5f64.to_bits(), &[("core", "0")], &None);

    let snapshots = registry.collect();
    assert_eq!(snapshots.len(), 1);
    match &snapshots[0] {
        MetricSnapshot::Gauge {
            name, data_points, ..
        } => {
            assert_eq!(name, "cpu_usage");
            assert_eq!(data_points.len(), 1);
            assert!((f64::from_bits(data_points[0].1) - 75.5).abs() < f64::EPSILON);
        }
        _ => panic!("expected Gauge snapshot"),
    }
}

#[test]
fn counter_no_attrs() {
    let mut registry = MetricsRegistry::new();
    let c = registry.counter("simple", "simple counter");
    c.add(&mut registry, 10, &[], &None);

    let snapshots = registry.collect();
    assert_eq!(snapshots.len(), 1);
    match &snapshots[0] {
        MetricSnapshot::Counter { data_points, .. } => {
            assert_eq!(data_points.len(), 1);
            assert_eq!(data_points[0].1, 10);
            assert!(data_points[0].0.is_empty());
        }
        _ => panic!("expected Counter"),
    }
}

#[test]
fn empty_registry_collects_nothing() {
    let mut registry = MetricsRegistry::new();
    let _ = registry.counter("unused", "never incremented");
    assert!(registry.collect().is_empty());
}

#[test]
fn counter_clone_shares_state() {
    let mut registry = MetricsRegistry::new();
    let c1 = registry.counter("shared", "shared counter");
    let c2 = c1.clone();
    c1.add(&mut registry, 5, &[], &None);
    c2.add(&mut registry, 3, &[], &None);

    let snapshots = registry.collect();
    match &snapshots[0] {
        MetricSnapshot::Counter { data_points, .. } => {
            assert_eq!(data_points[0].1, 8);
        }
        _ => panic!("expected Counter"),
    }
}

#[test]
fn attrs_order_does_not_matter() {
    let mut registry = MetricsRegistry::new();
    let c = registry.counter("order_test", "test");
    c.add(&mut registry, 1, &[("a", "1"), ("b", "2")], &None);
    c.add(&mut registry, 1, &[("b", "2"), ("a", "1")], &None);

    let snapshots = registry.collect();
    match &snapshots[0] {
        MetricSnapshot::Counter { data_points, .. } => {
            assert_eq!(data_points.len(), 1);
            assert_eq!(data_points[0].1, 2);
        }
        _ => panic!("expected Counter"),
    }
}

#[test]
fn histogram_observe_accumulates() {
    let mut registry = MetricsRegistry::new();
    let h = registry.histogram("latency", "request latency", &bits(&[10.0, 50.0, 100.0]));
    observe(&h, &mut registry, 5.0, &[("method", "GET")]);
    observe(&h, &mut registry, 25.0, &[("method", "GET")]);
    observe(&h, &mut registry, 75.0, &[("method", "GET")]);
    observe(&h, &mut registry, 200.0, &[("method", "GET")]);

    let snapshots = registry.collect();
    assert_eq!(snapshots.len(), 1);
    match &snapshots[0] {
        MetricSnapshot::Histogram {
            name,
            boundaries,
            data_points,
            ..
        } => {
            assert_eq!(name, "latency");
            assert_eq!(boundaries, &bits(&[10.0, 50.0, 100.0]));
            assert_eq!(data_points.len(), 1);
            let dp = &data_points[0];
            // 4 buckets: [0,10), [10,50), [50,100), [100,+inf)
            assert_eq!(dp.bucket_counts, vec![1, 1, 1, 1]);
            assert_eq!(dp.count, 4);
            assert!((f64::from_bits(dp.sum) - 305.0).abs() < f64::EPSILON);
            assert!((f64::from_bits(dp.min) - 5.0).abs() < f64::EPSILON);
            assert!((f64::from_bits(dp.max) - 200.0).abs() < f64::EPSILON);
        }
        _ => panic!("expected Histogram snapshot"),
    }
}

#[test]
fn histogram_boundary_placement() {
    let mut registry = MetricsRegistry::new();
    let h = registry.histogram("bp", "test", &bits(&[10.0, 20.0]));
    // Exactly on boundary goes to the next bucket
    observe(&h, &mut registry, 10.0, &[]);
    observe(&h, &mut registry, 20.0, &[]);
    observe(&h, &mut registry, 0.0, &[]);

    let snapshots = registry.collect();
    match &snapshots[0] {
        MetricSnapshot::Histogram { data_points, .. } => {
            let dp = &data_points[0];
            // [0,10) = 1 (0.0), [10,20) = 1 (10.0), [20,+inf) = 1 (20.0)
            assert_eq!(dp.bucket_counts, vec![1, 1, 1]);
        }
        _ => panic!("expected Histogram"),
    }
}

#[test]
fn histogram_multiple_attr_sets() {
    let mut registry = MetricsRegistry::new();
    let h = registry.histogram("multi", "test", &bits(&[50.0]));
    observe(&h, &mut registry, 10.0, &[("method", "GET")]);
    observe(&h, &mut registry, 60.0, &[("method", "POST")]);

    let snapshots = registry.collect();
    match &snapshots[0] {
        MetricSnapshot::Histogram { data_points, .. } => {
            assert_eq!(data_points.len(), 2);
        }
        _ => panic!("expected Histogram"),
    }
}

#[test]
fn histogram_clone_shares_state() {
    let mut registry = MetricsRegistry::new();
    let h1 = registry.histogram("shared_h", "test", &bits(&[10.0]));
    let h2 = h1.clone();
    observe(&h1, &mut registry, 5.0, &[]);
    observe(&h2, &mut registry, 15.0, &[]);

    let snapshots = registry.collect();
    match &snapshots[0] {
        MetricSnapshot::Histogram { data_points, .. } => {
            let dp = &data_points[0];
            assert_eq!(dp.count, 2);
        }
        _ => panic!("expected Histogram"),
    }
}

#[test]
fn histogram_empty_not_collected() {
    let mut registry = MetricsRegistry::new();
    let _ = registry.histogram("unused_h", "test", &bits(&[10.0]));
    assert!(registry.collect().is_empty());
}

#[test]
fn histogram_no_attrs() {
    let mut registry = MetricsRegistry::new();
    let h = registry.histogram("no_attrs_h", "test", &bits(&[5.0]));
    observe(&h, &mut registry, 1.0, &[]);

    let snapshots = registry.collect();
    match &snapshots[0] {
        MetricSnapshot::Histogram { data_points, .. } => {
            assert_eq!(data_points.len(), 1);
            assert!(data_points[0].attrs.is_empty());
        }
        _ => panic!("expected Histogram"),
    }
}

#[test]
fn counter_no_exemplar_without_span() {
    // Without an active tracing span, exemplar should be None.
    let mut registry = MetricsRegistry::new();
    let c = registry.counter("no_span", "test");
    c.add(&mut registry, 1, &[], &None);

    let snapshots = registry.collect();
    match &snapshots[0] {
        MetricSnapshot::Counter { data_points, .. } => {
            assert!(data_points[0].2.is_none());
        }
        _ => panic!("expected Counter"),
    }
}

#[test]
fn exemplar_resets_on_collect() {
    // Record with an exemplar and verify it's consumed on collect.
    let mut registry = MetricsRegistry::new();
    let c = registry.counter("reset_test", "test");
    let context = Some(TraceContext {
        trace_id: [0xAA; 16],
        span_id: [0xBB; 8],
        time_unix_nano: 123_456,
    });
    c.add(&mut registry, 1, &[], &context);

    // First collect should yield the exemplar.
    let snap1 = registry.collect();
    match &snap1[0] {
        MetricSnapshot::Counter { data_points, .. } => {
            assert!(data_points[0].2.is_some());
        }
        _ => panic!("expected Counter"),
    }

    // Second collect should have None (reset by .take()).
    let snap2 = registry.collect();
    match &snap2[0] {
        MetricSnapshot::Counter { data_points, .. } => {
            assert!(data_points[0].2.is_none());
        }
        _ => panic!("expected Counter"),
    }
}

#[test]
fn cardinality_limit_drops_excess() {
    let mut registry = MetricsRegistry::new();
    let c = registry.counter_with_max_cardinality("limited", "test", 3);
    c.add(&mut registry, 1, &[("k", "a")], &None);
    c.add(&mut registry, 1, &[("k", "b")], &None);
    c.add(&mut registry, 1, &[("k", "c")], &None);
    c.add(&mut registry, 1, &[("k", "d")], &None); // should be dropped

    let snapshots = registry.collect();
    match &snapshots[0] {
        MetricSnapshot::Counter { data_points, .. } => {
            assert_eq!(data_points.len(), 3);
        }
        _ => panic!("expected Counter"),
    }
}

#[test]
fn cardinality_limit_allows_existing_keys() {
    let mut registry = MetricsRegistry::new();
    let c = registry.counter_with_max_cardinality("limited2", "test", 2);
    c.add(&mut registry, 1, &[("k", "a")], &None);
    c.add(&mut registry, 1, &[("k", "b")], &None);
    // At limit now — new keys dropped, but existing keys still accumulate
    c.add(&mut registry, 1, &[("k", "c")], &None); // dropped
    c.add(&mut registry, 5, &[("k", "a")], &None); // existing key — should work
    c.add(&mut registry, 3, &[("k", "b")], &None); // existing key — should work

    let snapshots = registry.collect();
    match &snapshots[0] {
        MetricSnapshot::Counter { data_points, .. } => {
            assert_eq!(data_points.len(), 2);
            let total: i64 = data_points.iter().map(|(_, v, _)| v).sum();
            assert_eq!(total, 10); // 1+5 + 1+3
        }
        _ => panic!("expected Counter"),
    }
}

#[test]
fn per_metric_overrides_global() {
    let mut registry = MetricsRegistry::with_max_cardinality(100);
    let c = registry.counter_with_max_cardinality("override", "test", 2);
    c.add(&mut registry, 1, &[("k", "a")], &None);
    c.add(&mut registry, 1, &[("k", "b")], &None);
    c.add(&mut registry, 1, &[("k", "c")], &None); // dropped — per-metric limit is 2

    let snapshots = registry.collect();
    match &snapshots[0] {
        MetricSnapshot::Counter { data_points, .. } => {
            assert_eq!(data_points.len(), 2);
        }
        _ => panic!("expected Counter"),
    }
}

#[test]
fn default_cardinality_is_2000() {
    let mut registry = MetricsRegistry::new();
    let c = registry.counter("big", "test");
    for i in 0..2000 {
        c.add(&mut registry, 1, &[("k", &i.to_string())], &None);
    }

    let snapshots = registry.collect();
    match &snapshots[0] {
        MetricSnapshot::Counter { data_points, .. } => {
            assert_eq!(data_points.len(), 2000);
        }
        _ => panic!("expected Counter"),
    }
}

#[test]
fn gauge_cardinality_limit() {
    let mut registry = MetricsRegistry::new();
    let g = registry.gauge_with_max_cardinality("g_limited", "test", 2);
    g.set(&mut registry, 1.0f64.to_bits(), &[("k", "a")], &None);
    g.set(&mut registry, 2.0f64.to_bits(), &[("k", "b")], &None);
    g.set(&mut registry, 3.0f64.to_bits(), &[("k", "c")], &None); // dropped

    let snapshots = registry.collect();
    match &snapshots[0] {
        MetricSnapshot::Gauge { data_points, .. } => {
            assert_eq!(data_points.len(), 2);
        }
        _ => panic!("expected Gauge"),
    }
}

#[test]
fn histogram_cardinality_limit() {
    let mut registry = MetricsRegistry::new();
    let h = registry.histogram_with_max_cardinality("h_limited", "test", &bits(&[10.0]), 2);
    observe(&h, &mut registry, 1.0, &[("k", "a")]);
    observe(&h, &mut registry, 2.0, &[("k", "b")]);
    observe(&h, &mut registry, 3.0, &[("k", "c")]); // dropped

    let snapshots = registry.collect();
    match &snapshots[0] {
        MetricSnapshot::Histogram { data_points, .. } => {
            assert_eq!(data_points.len(), 2);
        }
        _ => panic!("expected Histogram"),
    }
}

#[test]
fn outcomes_tell_what_became_of_a_value() {
    let mut registry = MetricsRegistry::new();
    let c = registry.counter_with_max_cardinality("outcomes", "test", 1);
    assert_eq!(c.add(&mut registry, 1, &[("k", "a")], &None), Outcome::Recorded);
    assert_eq!(
        c.add(&mut registry, 1, &[("k", "b")], &None),
        Outcome::LimitReached { first: true }
    );
    assert_eq!(
        c.add(&mut registry, 1, &[("k", "c")], &None),
        Outcome::LimitReached { first: false }
    );
    let g = registry.gauge("gauge", "test");
    assert_eq!(
        g.set(&mut registry, f64::NAN.to_bits(), &[], &None),
        Outcome::NotFinite
    );
    let h = registry.histogram("histogram", "test", &bits(&[1.0]));
    assert_eq!(observe(&h, &mut registry, f64::INFINITY, &[]), Outcome::NotFinite);
    assert!(h.has_room(&registry, &[]));
}

#[test]
fn counters_stop_at_the_largest_number() {
    let mut registry = MetricsRegistry::new();
    let c = registry.counter("big", "test");
    c.add(&mut registry, u64::MAX, &[], &None);
    c.add(&mut registry, 1, &[], &None);
    match &registry.collect()[0] {
        MetricSnapshot::Counter { data_points, .. } => assert_eq!(data_points[0].1, i64::MAX),
        _ => panic!("expected Counter"),
    }
}

#[test]
fn first_registration_holds() {
    let mut registry = MetricsRegistry::new();
    let c = registry.counter("c", "first");
    assert_eq!(registry.counter("c", "second"), c);
    let h = registry.histogram("h", "first", &bits(&[2.0, 1.0, 2.0]));
    assert_eq!(registry.histogram("h", "second", &bits(&[9.0])), h);
    c.add(&mut registry, 1, &[], &None);
    observe(&h, &mut registry, 1.5, &[]);
    let snapshots = registry.collect();
    match (&snapshots[0], &snapshots[1]) {
        (
            MetricSnapshot::Counter { description, .. },
            MetricSnapshot::Histogram { boundaries, data_points, .. },
        ) => {
            assert_eq!(description, "first");
            assert_eq!(boundaries, &bits(&[1.0, 2.0]));
            assert_eq!(data_points[0].bucket_counts, vec![0, 1, 0]);
        }
        _ => panic!("expected Counter and Histogram"),
    }
}

#[test]
fn registrations_that_differ_are_noticed() {
    let mut registry = MetricsRegistry::new();
    registry.counter("c", "first");
    registry.histogram("h", "test", &bits(&[1.0, 2.0]));
    assert!(registry.warn_cross_type_conflict("c", InstrumentKind::Gauge));
    assert!(!registry.warn_cross_type_conflict("c", InstrumentKind::Counter));
    assert!(!registry.warn_cross_type_conflict("x", InstrumentKind::Gauge));
    assert!(registry.warn_histogram_boundaries("h", &bits(&[1.0])));
    assert!(!registry.warn_histogram_boundaries("h", &bits(&[1.0, 2.0])));
}

#[test]
fn exemplars_need_a_trace() {
    let mut registry = MetricsRegistry::new();
    let c = registry.counter("c", "test");
    let none = Some(TraceContext { trace_id: [0; 16], span_id: [1; 8], time_unix_nano: 1 });
    c.add(&mut registry, 1, &[("k", "none")], &none);
    let some = Some(TraceContext { trace_id: [2; 16], span_id: [3; 8], time_unix_nano: 4 });
    c.add(&mut registry, 7, &[("k", "some")], &some);
    match &registry.collect()[0] {
        MetricSnapshot::Counter { data_points, .. } => {
            assert!(data_points[0].2.is_none());
            let exemplar = data_points[1].2.unwrap();
            assert_eq!(exemplar.trace_id, [2; 16]);
            assert_eq!(exemplar.span_id, [3; 8]);
            assert_eq!(exemplar.time_unix_nano, 4);
            assert!(matches!(exemplar.value, ExemplarValue::Int(7)));
        }
        _ => panic!("expected Counter"),
    }
}

#[test]
fn recordings_make_a_registry_fresh() {
    let mut registry = MetricsRegistry::new();
    assert!(!registry.is_fresh());
    let c = registry.counter("c", "test");
    assert!(!registry.is_fresh());
    c.add(&mut registry, 1, &[], &None);
    assert!(registry.is_fresh());
    let first = registry.collect();
    assert!(!registry.is_fresh());
    assert_eq!(registry.collect().len(), first.len());
}
