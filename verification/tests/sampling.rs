use rolly::bench::should_sample;

fn trace_ids(count: u64) -> Vec<[u8; 16]> {
    (0u64..count)
        .map(|i| {
            let hash = blake3::hash(&i.to_le_bytes());
            let mut tid = [0u8; 16];
            tid.copy_from_slice(&hash.as_bytes()[..16]);
            tid
        })
        .collect()
}

fn decisions(trace_ids: &[[u8; 16]], rates: &[f64]) -> Vec<bool> {
    let mut results = Vec::new();
    for tid in trace_ids {
        for rate in rates {
            results.push(should_sample(*tid, rate.to_bits()));
        }
    }
    results
}

#[test]
fn sampling_is_deterministic_across_8_threads() {
    let rates = vec![0.0, 0.01, 0.1, 0.5, 0.99, 1.0];
    let runtime = tokio::runtime::Builder::new_multi_thread()
        .worker_threads(8)
        .build()
        .unwrap();
    let handles: Vec<_> = (0..8)
        .map(|_| {
            let rates = rates.clone();
            runtime.spawn(async move { decisions(&trace_ids(100), &rates) })
        })
        .collect();
    let all_results: Vec<Vec<bool>> = handles
        .into_iter()
        .map(|handle| runtime.block_on(handle).unwrap())
        .collect();

    // All threads must produce the same result vector
    let expected = &all_results[0];
    for (thread_idx, result) in all_results.iter().enumerate().skip(1) {
        assert_eq!(
            result, expected,
            "thread {} produced different results than thread 0",
            thread_idx
        );
    }
}

#[test]
fn sampling_at_the_bounds() {
    let trace_ids: Vec<[u8; 16]> = vec![
        [0x00; 16],
        [0xFF; 16],
        [0x80; 16],
        [1, 2, 3, 4, 5, 6, 7, 8, 9, 10, 11, 12, 13, 14, 15, 16],
    ];
    assert_eq!(decisions(&trace_ids, &[0.0]), vec![false; 4]);
    assert_eq!(decisions(&trace_ids, &[1.0]), vec![true; 4]);
    assert_eq!(
        decisions(&trace_ids, &[f64::MIN_POSITIVE]),
        vec![true, false, false, false]
    );
    assert_eq!(
        decisions(&trace_ids, &[1.0 - f64::EPSILON]),
        vec![true, false, true, true]
    );
    assert_eq!(decisions(&trace_ids, &[f64::NAN]), vec![false; 4]);
}

#[test]
fn sampling_depends_on_the_first_eight_bytes() {
    for tid in trace_ids(50) {
        let mut other = tid;
        for byte in &mut other[8..] {
            *byte = !*byte;
        }
        assert_eq!(
            should_sample(tid, 0.37f64.to_bits()),
            should_sample(other, 0.37f64.to_bits())
        );
    }
}

#[test]
fn sampling_more_keeps_what_was_sampled() {
    for tid in trace_ids(200) {
        let mut before = false;
        for step in 0..=20 {
            let now = should_sample(tid, (step as f64 / 20.0).to_bits());
            assert!(now || !before);
            before = now;
        }
    }
}
