use kq_fx::asof::{as_of_position, get_value_as_of, get_value_as_of_pairs, DateValue};
use kq_fx::error::CacheError;

/// Days since 2000-01-01 for a day of January 2000.
fn jan_2000(day: i32) -> i32 {
    day - 1
}

fn bits(value: f64) -> u64 {
    value.to_bits()
}

fn sample_dates() -> Vec<i32> {
    vec![jan_2000(1), jan_2000(2), jan_2000(3), jan_2000(5), jan_2000(8)]
}

fn sample_values() -> Vec<u64> {
    vec![bits(10.0), bits(20.0), bits(30.0), bits(50.0), bits(80.0)]
}

fn sample_pairs() -> Vec<DateValue> {
    vec![
        DateValue { date: jan_2000(1), value: bits(10.0) },
        DateValue { date: jan_2000(2), value: bits(20.0) },
        DateValue { date: jan_2000(3), value: bits(30.0) },
        DateValue { date: jan_2000(5), value: bits(50.0) },
        DateValue { date: jan_2000(8), value: bits(80.0) },
    ]
}

#[test]
fn test_kq_get_value_from_arrays() {
    let dates = sample_dates();
    let values = sample_values();
    let default_value = Some(bits(0.0));
    // intermediate date (within range but not an exact match)
    assert_eq!(
        get_value_as_of(&dates, &values, jan_2000(4), default_value),
        Ok(Some(bits(30.0)))
    );
    // exact date match
    assert_eq!(
        get_value_as_of(&dates, &values, jan_2000(8), default_value),
        Ok(Some(bits(80.0)))
    );
    // date before any value in dates
    assert_eq!(get_value_as_of(&dates, &values, -1, default_value), Ok(default_value));
    // date after the last value in dates
    assert_eq!(
        get_value_as_of(&dates, &values, jan_2000(9), default_value),
        Ok(Some(bits(80.0)))
    );
    // dates and values empty
    assert_eq!(get_value_as_of(&vec![], &vec![], jan_2000(9), default_value), Ok(default_value));
    // exact date match to the first value in dates
    assert_eq!(
        get_value_as_of(&dates, &values, jan_2000(1), default_value),
        Ok(Some(bits(10.0)))
    );
}

#[test]
fn test_kq_get_value_from_custom_type() {
    let date_values = sample_pairs();
    let default_value = Some(bits(0.0));
    assert_eq!(get_value_as_of_pairs(&date_values, jan_2000(4), default_value), Some(bits(30.0)));
    assert_eq!(get_value_as_of_pairs(&date_values, jan_2000(8), default_value), Some(bits(80.0)));
    assert_eq!(get_value_as_of_pairs(&date_values, -1, default_value), default_value);
    assert_eq!(get_value_as_of_pairs(&date_values, jan_2000(9), default_value), Some(bits(80.0)));
    assert_eq!(get_value_as_of_pairs(&vec![], jan_2000(9), default_value), default_value);
    assert_eq!(get_value_as_of_pairs(&date_values, jan_2000(1), default_value), Some(bits(10.0)));
}

#[test]
fn test_kq_get_value_from_pairs() {
    let pairs = sample_pairs();
    let zero = Some(bits(0.0));
    let as_float = |found: Option<u64>| f64::from_bits(found.unwrap());
    assert_eq!(as_float(get_value_as_of_pairs(&pairs, jan_2000(4), zero)), 30.0f64);
    assert_eq!(as_float(get_value_as_of_pairs(&pairs, jan_2000(8), zero)), 80.0f64);
    assert_eq!(as_float(get_value_as_of_pairs(&pairs, -1, zero)), 0.0f64);
    assert_eq!(as_float(get_value_as_of_pairs(&pairs, jan_2000(9), zero)), 80.0f64);
    assert_eq!(as_float(get_value_as_of_pairs(&vec![], jan_2000(9), zero)), 0.0f64);
    assert_eq!(as_float(get_value_as_of_pairs(&pairs, jan_2000(1), zero)), 10.0f64);
}

#[test]
fn default_may_be_absent() {
    let dates = sample_dates();
    let values = sample_values();
    assert_eq!(get_value_as_of(&dates, &values, -1, None), Ok(None));
    assert_eq!(get_value_as_of(&vec![], &vec![], 0, None), Ok(None));
    assert_eq!(get_value_as_of_pairs(&sample_pairs(), -1, None), None);
    assert_eq!(get_value_as_of(&dates, &values, 5, None), Ok(Some(bits(50.0))));
}

#[test]
fn length_mismatch_is_reported() {
    let dates = sample_dates();
    let mut values = sample_values();
    values.pop();
    assert_eq!(
        get_value_as_of(&dates, &values, jan_2000(4), Some(bits(0.0))),
        Err(CacheError::LengthMismatch)
    );
    assert_eq!(get_value_as_of(&dates, &vec![], 0, None), Err(CacheError::LengthMismatch));
    assert_eq!(get_value_as_of(&vec![], &values, 0, None), Err(CacheError::LengthMismatch));
}

#[test]
fn position_of_each_date() {
    let dates = sample_dates();
    assert_eq!(as_of_position(&dates, -1), None);
    assert_eq!(as_of_position(&dates, i32::MIN), None);
    assert_eq!(as_of_position(&dates, 0), Some(0));
    assert_eq!(as_of_position(&dates, 1), Some(1));
    assert_eq!(as_of_position(&dates, 2), Some(2));
    assert_eq!(as_of_position(&dates, 3), Some(2));
    assert_eq!(as_of_position(&dates, 4), Some(3));
    assert_eq!(as_of_position(&dates, 5), Some(3));
    assert_eq!(as_of_position(&dates, 6), Some(3));
    assert_eq!(as_of_position(&dates, 7), Some(4));
    assert_eq!(as_of_position(&dates, 8), Some(4));
    assert_eq!(as_of_position(&dates, i32::MAX), Some(4));
    assert_eq!(as_of_position(&Vec::<i32>::new(), 0), None);
    assert_eq!(as_of_position(&sample_pairs(), 6), Some(3));
}

#[test]
fn single_sample_series() {
    let dates = vec![10];
    let values = vec![bits(2.5)];
    assert_eq!(get_value_as_of(&dates, &values, 9, None), Ok(None));
    assert_eq!(get_value_as_of(&dates, &values, 10, None), Ok(Some(bits(2.5))));
    assert_eq!(get_value_as_of(&dates, &values, 11, None), Ok(Some(bits(2.5))));
}

#[test]
fn every_sample_answers_its_own_date() {
    let dates: Vec<i32> = (0..200).map(|i| i * 3 - 100).collect();
    let values: Vec<u64> = (0..200).map(|i| bits(i as f64 * 1.5)).collect();
    for i in 0..dates.len() {
        assert_eq!(get_value_as_of(&dates, &values, dates[i], None), Ok(Some(values[i])));
        assert_eq!(get_value_as_of(&dates, &values, dates[i] + 1, None), Ok(Some(values[i])));
        assert_eq!(as_of_position(&dates, dates[i] + 2), Some(i));
    }
}

#[test]
fn later_dates_never_resolve_earlier() {
    let dates = vec![-5, -5, 0, 3, 3, 3, 9, 20];
    let mut previous: Option<usize> = None;
    for date in -8..25 {
        let found = as_of_position(&dates, date);
        match (previous, found) {
            (Some(before), Some(now)) => {
                assert!(before <= now);
                assert!(dates[before] <= dates[now]);
            }
            (Some(_), None) => panic!("a later date lost its sample"),
            _ => {}
        }
        previous = found;
    }
    assert_eq!(previous, Some(7));
}

#[test]
fn equal_dates_resolve_to_the_last_of_them() {
    let dates = vec![1, 4, 4, 4, 7];
    let values = vec![bits(1.0), bits(2.0), bits(3.0), bits(4.0), bits(5.0)];
    assert_eq!(as_of_position(&dates, 4), Some(3));
    assert_eq!(get_value_as_of(&dates, &values, 5, None), Ok(Some(bits(4.0))));
    assert_eq!(get_value_as_of(&dates, &values, 3, None), Ok(Some(bits(1.0))));
}
