use fanout_bench::batch::{build_requests, fetch_outcome, new_results, ResultStruct};
use fanout_bench::collect::consume_results;

/// An empty batch: the pre-sized array is empty, draining zero records
/// leaves it empty.
#[test]
fn empty_batch() {
    let mut results = new_results(0);
    assert_eq!(results.len(), 0);
    let outcomes: Vec<ResultStruct> = Vec::new();
    consume_results(&outcomes, &mut results);
    assert!(results.is_empty());
}

/// The pre-sized array starts at the neutral default in every slot.
#[test]
fn new_results_zeroed() {
    let results = new_results(8);
    assert_eq!(results, vec![0isize; 8]);
}

/// Request descriptors carry the target and consecutive indices.
#[test]
fn build_requests_indices() {
    let reqs = build_requests("http://198.51.100.1/image.png", 4);
    assert_eq!(reqs.len(), 4);
    for (i, r) in reqs.iter().enumerate() {
        assert_eq!(r.number, i);
        assert_eq!(r.url, "http://198.51.100.1/image.png");
    }
}

/// A fully read body of K bytes reports exactly K.
#[test]
fn success_size_accuracy() {
    let r = fetch_outcome(6, Some(38400));
    assert_eq!(r.number, 6);
    assert_eq!(r.size, 38400);
    let z = fetch_outcome(0, Some(0));
    assert_eq!(z.size, 0);
}

/// Every failure collapses to the sentinel, and lands at the failed
/// request's own slot without touching the others.
#[test]
fn failure_sentinel() {
    let r = fetch_outcome(2, None);
    assert_eq!(r.number, 2);
    assert_eq!(r.size, -1);

    let mut results = new_results(4);
    let outcomes = vec![r];
    consume_results(&outcomes, &mut results);
    assert_eq!(results, vec![0, 0, -1, 0]);
}

/// Five requests, even indices reaching a 100-byte body and odd indices
/// failing, delivered in a scrambled completion order.
#[test]
fn alternating_scenario() {
    let mut outcomes: Vec<ResultStruct> = Vec::new();
    for i in [3usize, 0, 4, 1, 2] {
        let body = if i % 2 == 0 { Some(100) } else { None };
        outcomes.push(fetch_outcome(i, body));
    }
    let mut results = new_results(5);
    consume_results(&outcomes, &mut results);
    assert_eq!(results, vec![100, -1, 100, -1, 100]);
}

/// The same records reassemble to the same array whatever order they
/// arrived in.
#[test]
fn order_independence() {
    let records = [
        ResultStruct { number: 0, size: 7 },
        ResultStruct { number: 1, size: -1 },
        ResultStruct { number: 2, size: 0 },
        ResultStruct { number: 3, size: 512 },
        ResultStruct { number: 4, size: 3 },
    ];

    let in_order: Vec<ResultStruct> = records.to_vec();
    let shuffled: Vec<ResultStruct> = [4usize, 2, 0, 3, 1].iter().map(|&i| records[i]).collect();

    let mut results_a = new_results(5);
    consume_results(&in_order, &mut results_a);
    let mut results_b = new_results(5);
    consume_results(&shuffled, &mut results_b);
    assert_eq!(results_a, results_b);
    assert_eq!(results_a, vec![7, -1, 0, 512, 3]);
}

/// A batch of 1000 against a mix of succeeding and failing targets, with
/// records arriving in a scrambled completion order: every slot matches
/// the expected success/failure pattern, none lost, none duplicated.
#[test]
fn large_mixed_batch() {
    let n = 1000usize;
    // A deterministic scramble of [0, n): 0..n sent through a stride that
    // is coprime with n.
    let mut arrival: Vec<usize> = Vec::with_capacity(n);
    for k in 0..n {
        arrival.push((k * 577 + 13) % n);
    }
    let mut seen = vec![false; n];
    for &i in &arrival {
        assert!(!seen[i]);
        seen[i] = true;
    }

    let mut outcomes: Vec<ResultStruct> = Vec::with_capacity(n);
    for &i in &arrival {
        let body = if i % 3 == 0 { Some(i) } else { None };
        outcomes.push(fetch_outcome(i, body));
    }
    let mut results = new_results(n);
    consume_results(&outcomes, &mut results);

    assert_eq!(results.len(), n);
    for i in 0..n {
        let expected = if i % 3 == 0 { i as isize } else { -1 };
        assert_eq!(results[i], expected);
    }
}

/// Slots no record is addressed to keep their prior value.
#[test]
fn untouched_slots_keep_value() {
    let mut results = new_results(6);
    let outcomes = vec![
        ResultStruct { number: 5, size: 44 },
        ResultStruct { number: 1, size: -1 },
    ];
    consume_results(&outcomes, &mut results);
    assert_eq!(results, vec![0, -1, 0, 0, 0, 44]);
}
