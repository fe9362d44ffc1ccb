use kq_fx::asof::{as_of_position, DatedSeq};
use kq_fx::error::CacheError;
use kq_fx::series::{RateSeries, RateSeriesStore};

fn bits(value: f64) -> u64 {
    value.to_bits()
}

#[test]
fn a_series_takes_512_samples() {
    let mut series = RateSeries::new();
    for i in 0..512 {
        assert_eq!(series.push(i, bits(i as f64)), Ok(()));
    }
    assert_eq!(series.len(), 512);
    assert_eq!(series.push(512, bits(512.0)), Err(CacheError::CapacityExceeded));
    assert_eq!(series.len(), 512);
    assert_eq!(series.get(0), (0, bits(0.0)));
    assert_eq!(series.get(511), (511, bits(511.0)));
    assert_eq!(series.rate_as_of(600), Some(bits(511.0)));
}

#[test]
fn sorting_is_by_date_and_stable() {
    let mut series = RateSeries::new();
    for (date, rate) in [(5, 1.0), (3, 2.0), (5, 3.0), (1, 4.0), (3, 5.0), (5, 6.0)] {
        assert_eq!(series.push(date, bits(rate)), Ok(()));
    }
    series.sort_by_date();
    let sorted: Vec<(i32, u64)> = (0..series.len()).map(|i| series.get(i)).collect();
    assert_eq!(
        sorted,
        vec![
            (1, bits(4.0)),
            (3, bits(2.0)),
            (3, bits(5.0)),
            (5, bits(1.0)),
            (5, bits(3.0)),
            (5, bits(6.0)),
        ]
    );
    series.sort_by_date();
    let again: Vec<(i32, u64)> = (0..series.len()).map(|i| series.get(i)).collect();
    assert_eq!(again, sorted);
}

#[test]
fn a_series_answers_as_of_a_date() {
    let mut series = RateSeries::new();
    assert_eq!(series.rate_as_of(0), None);
    for (date, rate) in [(0, 10.0), (1, 20.0), (2, 30.0), (4, 50.0), (7, 80.0)] {
        assert_eq!(series.push(date, bits(rate)), Ok(()));
    }
    assert_eq!(series.rate_as_of(3), Some(bits(30.0)));
    assert_eq!(series.rate_as_of(7), Some(bits(80.0)));
    assert_eq!(series.rate_as_of(-1), None);
    assert_eq!(series.rate_as_of(8), Some(bits(80.0)));
    assert_eq!(series.rate_as_of(0), Some(bits(10.0)));
}

#[test]
fn the_direction_of_a_pair_matters() {
    let mut store = RateSeriesStore::new();
    assert_eq!(store.append(1, 2, 0, bits(1.25)), Ok(()));
    assert_eq!(store.append(2, 1, 0, bits(0.8)), Ok(()));
    assert_eq!(store.rate_as_of(1, 2, 0), Some(bits(1.25)));
    assert_eq!(store.rate_as_of(2, 1, 0), Some(bits(0.8)));
    assert_eq!(store.rate_as_of(1, 3, 0), None);
    assert_eq!(store.rate_as_of(2, 1, -1), None);
}

#[test]
fn a_store_takes_1024_pairs() {
    let mut store = RateSeriesStore::new();
    for i in 0..1024 {
        assert_eq!(store.append(i, i + 1, 0, bits(i as f64)), Ok(()));
    }
    assert_eq!(store.append(5000, 1, 0, bits(1.0)), Err(CacheError::CapacityExceeded));
    assert_eq!(store.rate_as_of(5000, 1, 0), None);
    // a pair that is held still takes samples
    assert_eq!(store.append(17, 18, 1, bits(99.0)), Ok(()));
    assert_eq!(store.rate_as_of(17, 18, 0), Some(bits(17.0)));
    assert_eq!(store.rate_as_of(17, 18, 1), Some(bits(99.0)));
    assert_eq!(store.rate_as_of(1023, 1024, 9), Some(bits(1023.0)));
    assert_eq!(store.dump().len(), 1025);
}

#[test]
fn a_full_series_in_a_store_refuses_a_sample() {
    let mut store = RateSeriesStore::new();
    for i in 0..512 {
        assert_eq!(store.append(1, 2, i, bits(i as f64)), Ok(()));
    }
    assert_eq!(store.append(1, 2, 512, bits(512.0)), Err(CacheError::CapacityExceeded));
    assert_eq!(store.append(2, 1, 512, bits(0.5)), Ok(()));
    assert_eq!(store.rate_as_of(1, 2, 1000), Some(bits(511.0)));
    assert_eq!(store.dump().len(), 513);
}

#[test]
fn the_dump_lists_pairs_in_order_of_first_appearance() {
    let mut store = RateSeriesStore::new();
    assert_eq!(store.append(7, 8, 2, bits(2.0)), Ok(()));
    assert_eq!(store.append(1, 2, 5, bits(5.0)), Ok(()));
    assert_eq!(store.append(7, 8, 1, bits(1.0)), Ok(()));
    assert_eq!(store.append(1, 2, 6, bits(6.0)), Ok(()));
    assert_eq!(
        store.dump(),
        vec![
            (7, 8, 2, bits(2.0)),
            (7, 8, 1, bits(1.0)),
            (1, 2, 5, bits(5.0)),
            (1, 2, 6, bits(6.0)),
        ]
    );
    store.sort_all();
    assert_eq!(
        store.dump(),
        vec![
            (7, 8, 1, bits(1.0)),
            (7, 8, 2, bits(2.0)),
            (1, 2, 5, bits(5.0)),
            (1, 2, 6, bits(6.0)),
        ]
    );
    store.clear();
    assert_eq!(store.dump(), vec![]);
    assert_eq!(store.rate_as_of(7, 8, 2), None);
}

#[test]
fn a_series_is_read_by_position() {
    let mut series = RateSeries::new();
    for (date, rate) in [(-3, 1.0), (0, 2.0), (10, 3.0)] {
        assert_eq!(series.push(date, bits(rate)), Ok(()));
    }
    assert_eq!(series.count(), 3);
    assert_eq!(series.date_at(0), -3);
    assert_eq!(series.date_at(2), 10);
    assert_eq!(as_of_position(&series, 9), Some(1));
    assert_eq!(as_of_position(&series, -4), None);
    let dates = vec![-3, 0, 10];
    assert_eq!(dates.count(), 3);
    assert_eq!(dates.date_at(1), 0);
}
