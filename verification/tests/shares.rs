use validator::partition::{partition, plan, KeyRange};

fn owners(key: usize, workers: usize, total: usize) -> usize {
    (0..workers)
        .filter(|i| {
            let range = partition(*i, workers, total);
            range.start <= key && key < range.end
        })
        .count()
}

#[test]
fn shares_of_ten_keys_among_three() {
    assert_eq!(partition(0, 3, 10), KeyRange { start: 0, end: 3 });
    assert_eq!(partition(1, 3, 10), KeyRange { start: 3, end: 6 });
    assert_eq!(partition(2, 3, 10), KeyRange { start: 6, end: 10 });
}

#[test]
fn shares_of_an_even_split() {
    for i in 0..50 {
        assert_eq!(partition(i, 50, 100_000), KeyRange { start: i * 2000, end: (i + 1) * 2000 });
    }
    assert_eq!(partition(0, 1, 7), KeyRange { start: 0, end: 7 });
}

#[test]
fn first_worker_owns_key_zero_and_others_own_their_lower_boundary() {
    assert_eq!(owners(0, 8, 10_000), 1);
    for i in 0..8 {
        let range = partition(i, 8, 10_000);
        assert!(!range.is_empty());
        assert_eq!(owners(range.start, 8, 10_000), 1);
        assert_eq!(range.start, i * 1250);
    }
}

#[test]
fn every_key_has_exactly_one_owner() {
    for (workers, total) in [(1, 1), (1, 17), (3, 10), (7, 100), (8, 10_000), (50, 1_001), (9, 4)] {
        for key in 0..total {
            assert_eq!(owners(key, workers, total), 1, "{} {} {}", key, workers, total);
        }
        assert_eq!(owners(total, workers, total), 0);
        assert_eq!(owners(total + 1, workers, total), 0);
    }
}

#[test]
fn shares_follow_each_other() {
    let ranges = plan(7, 1_000);
    assert_eq!(ranges.len(), 7);
    assert_eq!(ranges[0].start, 0);
    assert_eq!(ranges[6].end, 1_000);
    for i in 0..6 {
        assert_eq!(ranges[i].end, ranges[i + 1].start);
    }
    for i in 0..7 {
        assert_eq!(ranges[i], partition(i, 7, 1_000));
    }
}

#[test]
fn more_workers_than_keys_leaves_some_without() {
    let ranges = plan(5, 2);
    let sizes: Vec<usize> = ranges.iter().map(|r| r.end - r.start).collect();
    assert_eq!(sizes.iter().sum::<usize>(), 2);
    assert_eq!(ranges.iter().filter(|r| r.is_empty()).count(), 3);
    assert!(plan(4, 0).iter().all(|r| r.is_empty()));
    assert!(plan(0, 9).is_empty());
}

#[test]
fn shares_of_the_largest_key_space() {
    let last = partition(usize::MAX - 1, usize::MAX, usize::MAX);
    assert_eq!(last, KeyRange { start: usize::MAX - 1, end: usize::MAX });
    let half = partition(1, 2, usize::MAX);
    assert_eq!(half, KeyRange { start: usize::MAX / 2, end: usize::MAX });
}
