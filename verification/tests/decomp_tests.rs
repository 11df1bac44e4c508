use himeno::decomp::{static_range, DynamicCounter};

/// Every interior row index appears in exactly one worker's static range,
/// and the boundary rows in none, across a grid of row counts and worker
/// counts.
#[test]
fn static_ranges_tile_interior_for_grid() {
    for &rows in &[3usize, 4, 10, 101] {
        for &t in &[1usize, 2, 3, 7, 16] {
            let mut count = vec![0usize; rows];
            for i in 0..t {
                let (lo, hi) = static_range(i, t, rows);
                assert!(1 <= lo);
                assert!(lo <= hi);
                assert!(hi <= rows - 1);
                for r in lo..hi {
                    count[r] += 1;
                }
            }
            for r in 1..rows - 1 {
                assert_eq!(count[r], 1, "row {} in {}x{} split", r, rows, t);
            }
            assert_eq!(count[0], 0);
            assert_eq!(count[rows - 1], 0);
        }
    }
}

/// With one worker the static range is the whole interior, in order.
#[test]
fn single_worker_gets_whole_interior() {
    for &rows in &[3usize, 4, 10, 101] {
        assert_eq!(static_range(0, 1, rows), (1, rows - 1));
    }
}

/// The last worker's range is extended to absorb the rounding remainder.
#[test]
fn static_range_formula_values() {
    // rows = 10: interior rows 1..9, 8 rows over 3 workers: 2, 3, 3.
    assert_eq!(static_range(0, 3, 10), (1, 3));
    assert_eq!(static_range(1, 3, 10), (3, 6));
    assert_eq!(static_range(2, 3, 10), (6, 9));
    // More workers than interior rows: some ranges are empty.
    let mut nonempty = 0;
    for i in 0..7 {
        let (lo, hi) = static_range(i, 7, 4);
        assert!(lo <= hi);
        if lo < hi {
            nonempty += hi - lo;
        }
    }
    assert_eq!(nonempty, 2);
}

/// The dynamic counter hands out exactly the interior rows, in increasing
/// order, one per claim, then reports exhaustion forever.
#[test]
fn dynamic_counter_enumerates_interior() {
    let mut c = DynamicCounter::new(10);
    let mut seen = Vec::new();
    while let Some(r) = c.claim() {
        seen.push(r);
    }
    assert_eq!(seen, vec![1, 2, 3, 4, 5, 6, 7, 8]);
    assert_eq!(c.claim(), None);
    assert_eq!(c.claim(), None);
}

/// Draining a counter in one call yields the same rows as single claims.
#[test]
fn dynamic_counter_claim_all_matches_claims() {
    let mut c = DynamicCounter::new(7);
    let all = c.claim_all();
    assert_eq!(all, vec![1, 2, 3, 4, 5]);
    assert_eq!(c.claim(), None);

    // The smallest field with an interior: a single interior row.
    let mut c3 = DynamicCounter::new(3);
    assert_eq!(c3.claim_all(), vec![1]);

    // No interior at all.
    let mut c2 = DynamicCounter::new(2);
    assert_eq!(c2.claim_all(), Vec::<usize>::new());
}

/// The two policies cover the same row set.
#[test]
fn static_and_dynamic_cover_same_rows() {
    for &rows in &[3usize, 4, 10, 101] {
        for &t in &[1usize, 2, 3, 7, 16] {
            let mut from_static = Vec::new();
            for i in 0..t {
                let (lo, hi) = static_range(i, t, rows);
                for r in lo..hi {
                    from_static.push(r);
                }
            }
            from_static.sort();
            let mut c = DynamicCounter::new(rows);
            let from_dynamic = c.claim_all();
            assert_eq!(from_static, from_dynamic);
        }
    }
}
