use camera_scan::range::{ScanRange, MAX_SCAN_PERIOD};

const DAY: i64 = 86_400_000;

fn collect(range: ScanRange) -> Vec<(ScanRange, u8)> {
    let mut it = range.iter();
    let mut out = Vec::new();
    while let Some(item) = it.next() {
        out.push(item);
    }
    out
}

#[test]
fn period_is_thirty_days() {
    assert_eq!(MAX_SCAN_PERIOD, 30 * DAY);
}

#[test]
fn seventy_days_make_three_chunks_newest_first() {
    let chunks = collect(ScanRange::new(0, 70 * DAY));
    assert_eq!(
        chunks,
        vec![
            (ScanRange { start: 40 * DAY, end: 70 * DAY }, 42),
            (ScanRange { start: 10 * DAY, end: 40 * DAY }, 85),
            (ScanRange { start: 0, end: 10 * DAY }, 100),
        ]
    );
}

#[test]
fn exact_multiple_has_no_short_chunk() {
    let chunks = collect(ScanRange::new(5, 5 + 60 * DAY));
    assert_eq!(
        chunks,
        vec![
            (ScanRange { start: 5 + 30 * DAY, end: 5 + 60 * DAY }, 50),
            (ScanRange { start: 5, end: 5 + 30 * DAY }, 100),
        ]
    );
}

#[test]
fn short_range_is_one_chunk_at_full_percent() {
    let chunks = collect(ScanRange::new(-7, 3));
    assert_eq!(chunks, vec![(ScanRange { start: -7, end: 3 }, 100)]);
}

#[test]
fn empty_and_inverted_ranges_have_no_chunk() {
    assert!(collect(ScanRange::new(12, 12)).is_empty());
    assert!(collect(ScanRange::new(13, 12)).is_empty());
    assert_eq!(ScanRange::new(12, 12).count(), 0);
    assert_eq!(ScanRange::new(13, 12).count(), 0);
}

#[test]
fn count_rounds_up() {
    assert_eq!(ScanRange::new(0, 30 * DAY).count(), 1);
    assert_eq!(ScanRange::new(0, 30 * DAY + 1).count(), 2);
    assert_eq!(ScanRange::new(0, 70 * DAY).count(), 3);
}

#[test]
fn widest_range_does_not_overflow() {
    let range = ScanRange::new(i64::MIN, i64::MAX);
    assert_eq!(range.count(), 7_116_799_412);
    let mut it = range.iter();
    assert_eq!(
        it.next(),
        Some((ScanRange { start: i64::MAX - MAX_SCAN_PERIOD, end: i64::MAX }, 0))
    );
    assert_eq!(
        it.next(),
        Some((ScanRange { start: i64::MAX - 2 * MAX_SCAN_PERIOD, end: i64::MAX - MAX_SCAN_PERIOD }, 0))
    );
}

#[test]
fn percents_rise_to_one_hundred_and_chunks_tile_the_range() {
    let range = ScanRange::new(1_000, 1_000 + 400 * DAY + 17);
    let chunks = collect(range);
    assert_eq!(chunks.len() as u64, range.count());
    assert_eq!(chunks[0].0.end, range.end);
    assert_eq!(chunks[chunks.len() - 1].0.start, range.start);
    for k in 0..chunks.len() {
        assert!(chunks[k].0.start < chunks[k].0.end);
        assert!(chunks[k].0.end - chunks[k].0.start <= MAX_SCAN_PERIOD);
        if k + 1 < chunks.len() {
            assert_eq!(chunks[k].0.start, chunks[k + 1].0.end);
            assert!(chunks[k].1 <= chunks[k + 1].1);
            assert!(chunks[k].1 < 100);
        } else {
            assert_eq!(chunks[k].1, 100);
        }
    }
}

#[test]
fn iter_is_restartable() {
    let range = ScanRange::new(0, 70 * DAY);
    assert_eq!(collect(range), collect(range));
    let mut it = range.iter();
    it.next();
    it.next();
    it.next();
    assert_eq!(it.next(), None);
    assert_eq!(it.next(), None);
}

#[test]
fn is_ordered_compares_the_ends() {
    assert!(ScanRange::new(1, 1).is_ordered());
    assert!(ScanRange::new(1, 2).is_ordered());
    assert!(!ScanRange::new(2, 1).is_ordered());
}
