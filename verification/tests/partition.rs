use bench_harness::partition::{partition, WorkPartition};

fn part(start_inclusive: u32, end_exclusive: u32) -> WorkPartition {
    WorkPartition { start_inclusive, end_exclusive }
}

fn assert_exact_cover(range_start: u32, range_end: u32, worker_count: usize) {
    let parts = partition(range_start, range_end, worker_count);
    assert_eq!(parts.len(), worker_count);
    assert_eq!(parts[0].start_inclusive, range_start);
    assert_eq!(parts[worker_count - 1].end_exclusive, range_end);
    for p in &parts {
        assert!(p.start_inclusive <= p.end_exclusive);
    }
    for pair in parts.windows(2) {
        assert_eq!(pair[0].end_exclusive, pair[1].start_inclusive);
    }
}

#[test]
fn four_workers_over_two_to_thirty() {
    assert_eq!(
        partition(2, 30, 4),
        vec![part(2, 9), part(9, 16), part(16, 23), part(23, 30)]
    );
}

#[test]
fn last_worker_takes_the_remainder() {
    assert_eq!(partition(0, 10, 3), vec![part(0, 3), part(3, 6), part(6, 10)]);
    assert_eq!(partition(2, 31, 4), vec![part(2, 9), part(9, 16), part(16, 23), part(23, 31)]);
}

#[test]
fn one_worker_takes_everything() {
    assert_eq!(partition(7, 1000, 1), vec![part(7, 1000)]);
}

#[test]
fn fewer_integers_than_workers() {
    assert_eq!(
        partition(5, 7, 4),
        vec![part(5, 5), part(5, 5), part(5, 5), part(5, 7)]
    );
}

#[test]
fn empty_range() {
    assert_eq!(partition(9, 9, 3), vec![part(9, 9), part(9, 9), part(9, 9)]);
}

#[test]
fn whole_u32_range() {
    let parts = partition(0, u32::MAX, 8);
    assert_eq!(parts.len(), 8);
    assert_eq!(parts[0], part(0, 536870911));
    assert_eq!(parts[7], part(3758096377, u32::MAX));
    assert_exact_cover(0, u32::MAX, 8);
}

#[test]
fn ten_million_among_eight() {
    let parts = partition(2, 10_000_000, 8);
    assert_eq!(parts[0], part(2, 1_250_001));
    assert_eq!(parts[7], part(8_749_995, 10_000_000));
    assert_exact_cover(2, 10_000_000, 8);
}

#[test]
fn covers_without_gap_or_overlap() {
    for range_start in 0..6u32 {
        for len in 0..20u32 {
            for worker_count in 1..7usize {
                assert_exact_cover(range_start, range_start + len, worker_count);
            }
        }
    }
}

#[test]
fn every_integer_lies_in_exactly_one_partition() {
    let parts = partition(3, 50, 6);
    for x in 0..60u32 {
        let holders = parts
            .iter()
            .filter(|p| p.start_inclusive <= x && x < p.end_exclusive)
            .count();
        assert_eq!(holders, if (3..50).contains(&x) { 1 } else { 0 });
    }
}
