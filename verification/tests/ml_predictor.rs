use sublinear_bft_scifest::ml_predictor::{adjust_batch_size, Trend};

#[test]
fn batch_size_follows_the_trend() {
    assert_eq!(adjust_batch_size(100, Trend::Rising, 10, 1000), 80);
    assert_eq!(adjust_batch_size(100, Trend::Falling, 10, 1000), 110);
    assert_eq!(adjust_batch_size(100, Trend::Stable, 10, 1000), 100);
    assert_eq!(adjust_batch_size(101, Trend::Rising, 10, 1000), 80);
    assert_eq!(adjust_batch_size(19, Trend::Falling, 10, 1000), 20);
}

#[test]
fn batch_size_stays_within_its_bounds() {
    assert_eq!(adjust_batch_size(100, Trend::Rising, 50, 200), 80);
    assert_eq!(adjust_batch_size(60, Trend::Rising, 50, 200), 50);
    assert_eq!(adjust_batch_size(190, Trend::Falling, 50, 200), 200);
    assert_eq!(adjust_batch_size(5, Trend::Stable, 50, 200), 50);
    assert_eq!(adjust_batch_size(usize::MAX, Trend::Falling, 0, usize::MAX), usize::MAX);
    assert_eq!(adjust_batch_size(7, Trend::Stable, 9, 9), 9);
}
