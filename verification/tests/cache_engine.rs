use kq_fx::control::{CacheState, Claim, Readiness};
use kq_fx::engine::{check_compatibility, CacheEngine, UNIT_RATE};
use kq_fx::error::CacheError;

fn bits(value: f64) -> u64 {
    value.to_bits()
}

fn currencies() -> Vec<(i64, String)> {
    vec![
        (1, "usd".to_string()),
        (2, "CAD".to_string()),
        (3590000203070, "aud".to_string()),
        (3590000231158, "nzd".to_string()),
    ]
}

fn rates() -> Vec<(i64, i64, i32, u64)> {
    vec![
        (1, 2, 5114, bits(0.7335380076416401)),
        (1, 2, 5145, bits(0.74)),
        (2, 1, 0, bits(1.45)),
        (2, 1, 7274, bits(1.2092987606763552)),
        (2, 1, 8826, bits(1.3539)),
        (3590000203070, 3590000231158, 10000, bits(1.6285458614035657)),
    ]
}

/// A backing store that counts how often it is read.
struct Source {
    reads: usize,
}

impl Source {
    fn read(&mut self) -> (Vec<(i64, String)>, Vec<(i64, i64, i32, u64)>) {
        self.reads += 1;
        (currencies(), rates())
    }
}

/// One caller's way to a cache that can be read, without the waiting.
fn ensure_populated(engine: &mut CacheEngine, source: &mut Source) -> Result<(), CacheError> {
    match engine.poll() {
        Readiness::Ready => return Ok(()),
        Readiness::Busy => panic!("nobody else is loading in this test"),
        Readiness::Idle => {}
    }
    match engine.claim() {
        Claim::Granted => {
            let (currencies, rates) = source.read();
            engine.populate(&currencies, &rates)?;
            Ok(())
        }
        Claim::NotNeeded => Ok(()),
        Claim::Busy => panic!("nobody else is loading in this test"),
    }
}

#[test]
fn test_get_rate_same_id() {
    let engine = CacheEngine::new();
    assert_eq!(Some(bits(1.0)), engine.get_rate(1, 1, 5599));
    assert_eq!(engine.get_rate(1, 1, 5599).map(f64::from_bits), Some(1.0));
    assert_eq!(UNIT_RATE, bits(1.0));
    assert_eq!(engine.current(), CacheState::Empty);
}

#[test]
fn test_get_rate_by_id() {
    let mut engine = CacheEngine::new();
    assert_eq!(engine.populate(&currencies(), &rates()), Ok((4, 6)));
    assert_eq!(Some(bits(1.2092987606763552)), engine.get_rate(2, 1, 7274));
    assert_eq!(Some(bits(1.2092987606763552)), engine.get_rate(2, 1, 7300));
    assert_eq!(
        Some(bits(1.6285458614035657)),
        engine.get_rate(3590000203070, 3590000231158, 10966)
    );
    assert_eq!(None, engine.get_rate(3590000231158, 3590000203070, 10966));
    assert_eq!(None, engine.get_rate(1, 3, 10966));
}

#[test]
fn test_get_rate_by_xuid() {
    let mut engine = CacheEngine::new();
    assert_eq!(engine.populate(&currencies(), &rates()), Ok((4, 6)));
    assert_eq!(Ok(Some(bits(0.7335380076416401))), engine.get_rate_by_xuid("usd", "cad", 5145 - 1));
    assert_eq!(Ok(Some(bits(0.74))), engine.get_rate_by_xuid("USD", "Cad", 5145));
    assert_eq!(Ok(Some(bits(1.6285458614035657))), engine.get_rate_by_xuid("aud", "nzd", 10966));
    assert_eq!(engine.resolve("AUD"), Ok(3590000203070));
}

#[test]
fn test_try_get_less_than_min_date() {
    let mut engine = CacheEngine::new();
    assert_eq!(engine.populate(&currencies(), &rates()), Ok((4, 6)));
    assert_eq!(None, engine.get_rate(2, 1, -365));
    assert_eq!(Ok(None), engine.get_rate_by_xuid("cad", "usd", -1));
}

#[test]
fn test_try_get_greater_than_max_date() {
    let mut engine = CacheEngine::new();
    assert_eq!(engine.populate(&currencies(), &rates()), Ok((4, 6)));
    assert_eq!(Some(bits(1.3539)), engine.get_rate(2, 1, 36524));
    assert_eq!(Some(bits(1.3539)), engine.get_rate(2, 1, i32::MAX));
}

#[test]
fn test_validate_db() {
    assert_eq!(check_compatibility(Some(true)), Ok(()));
    assert_eq!(check_compatibility(Some(false)), Err(CacheError::SchemaIncompatible));
    assert_eq!(check_compatibility(None), Err(CacheError::SchemaIncompatible));
}

#[test]
fn the_same_name_on_both_sides_needs_no_lookup() {
    let engine = CacheEngine::new();
    assert_eq!(engine.get_rate_by_xuid("xyz", "XYZ", 0), Ok(Some(bits(1.0))));
    assert_eq!(engine.get_rate_by_xuid("", "", 0), Ok(Some(bits(1.0))));
    assert_eq!(
        engine.get_rate_by_xuid("a-name-longer-than-a-key", "A-NAME-LONGER-THAN-A-KEY", 0),
        Ok(Some(bits(1.0)))
    );
}

#[test]
fn an_unknown_name_fails_the_lookup() {
    let mut engine = CacheEngine::new();
    assert_eq!(engine.get_rate_by_xuid("usd", "cad", 0), Err(CacheError::UnknownCurrency));
    assert_eq!(engine.populate(&currencies(), &rates()), Ok((4, 6)));
    assert_eq!(engine.get_rate_by_xuid("usd", "eur", 0), Err(CacheError::UnknownCurrency));
    assert_eq!(engine.get_rate_by_xuid("eur", "usd", 0), Err(CacheError::UnknownCurrency));
    assert_eq!(engine.get_rate_by_xuid("eur", "gbp", 0), Err(CacheError::UnknownCurrency));
    // both known, no history for the pair
    assert_eq!(engine.get_rate_by_xuid("usd", "aud", 0), Ok(None));
}

#[test]
fn rows_are_sorted_by_date_on_load() {
    let mut engine = CacheEngine::new();
    let shuffled = vec![
        (1, 2, 7, bits(80.0)),
        (1, 2, 0, bits(10.0)),
        (3, 4, 9, bits(9.0)),
        (1, 2, 4, bits(50.0)),
        (1, 2, 2, bits(30.0)),
        (1, 2, 1, bits(20.0)),
        (3, 4, 8, bits(8.0)),
    ];
    assert_eq!(engine.populate(&vec![], &shuffled), Ok((0, 7)));
    assert_eq!(
        engine.display_cache(),
        vec![
            (1, 2, 0, bits(10.0)),
            (1, 2, 1, bits(20.0)),
            (1, 2, 2, bits(30.0)),
            (1, 2, 4, bits(50.0)),
            (1, 2, 7, bits(80.0)),
            (3, 4, 8, bits(8.0)),
            (3, 4, 9, bits(9.0)),
        ]
    );
    assert_eq!(engine.get_rate(1, 2, 3), Some(bits(30.0)));
    assert_eq!(engine.get_rate(1, 2, 7), Some(bits(80.0)));
    assert_eq!(engine.get_rate(1, 2, -1), None);
    assert_eq!(engine.get_rate(1, 2, 8), Some(bits(80.0)));
    assert_eq!(engine.get_rate(1, 2, 0), Some(bits(10.0)));
    assert_eq!(engine.get_rate(3, 4, 8), Some(bits(8.0)));
}

#[test]
fn populating_twice_reads_the_source_once() {
    let mut engine = CacheEngine::new();
    let mut source = Source { reads: 0 };
    assert_eq!(ensure_populated(&mut engine, &mut source), Ok(()));
    let first = engine.display_cache();
    assert_eq!(source.reads, 1);
    assert_eq!(ensure_populated(&mut engine, &mut source), Ok(()));
    assert_eq!(source.reads, 1);
    assert_eq!(engine.display_cache(), first);
    assert_eq!(first.len(), 6);
    assert_eq!(engine.current(), CacheState::Filled);
}

#[test]
fn two_callers_that_find_the_cache_empty_load_it_once() {
    let mut engine = CacheEngine::new();
    let mut source = Source { reads: 0 };
    // both callers poll before either claims
    assert_eq!(engine.poll(), Readiness::Idle);
    assert_eq!(engine.poll(), Readiness::Idle);
    let first = engine.claim();
    let second = engine.claim();
    assert_eq!(first, Claim::Granted);
    assert_eq!(second, Claim::Busy);
    // the second caller waits
    assert_eq!(engine.poll(), Readiness::Busy);
    let (currencies, rates) = source.read();
    assert_eq!(engine.populate(&currencies, &rates), Ok((4, 6)));
    // and finds the cache ready
    assert_eq!(engine.poll(), Readiness::Ready);
    assert_eq!(engine.claim(), Claim::NotNeeded);
    assert_eq!(source.reads, 1);
    assert_eq!(engine.get_rate(2, 1, 9000), Some(bits(1.3539)));
}

#[test]
fn invalidating_empties_the_cache() {
    let mut engine = CacheEngine::new();
    let mut source = Source { reads: 0 };
    assert_eq!(ensure_populated(&mut engine, &mut source), Ok(()));
    engine.invalidate();
    assert_eq!(engine.current(), CacheState::Empty);
    assert_eq!(engine.poll(), Readiness::Idle);
    assert_eq!(engine.display_cache(), vec![]);
    assert_eq!(engine.get_rate(2, 1, 9000), None);
    assert_eq!(engine.resolve("usd"), Err(CacheError::UnknownCurrency));
    assert_eq!(ensure_populated(&mut engine, &mut source), Ok(()));
    assert_eq!(source.reads, 2);
    assert_eq!(engine.get_rate(2, 1, 9000), Some(bits(1.3539)));
}

#[test]
fn a_load_that_does_not_fit_leaves_the_cache_empty() {
    let mut engine = CacheEngine::new();
    let too_many: Vec<(i64, i64, i32, u64)> = (0..513).map(|i| (1, 2, i, bits(1.0))).collect();
    assert_eq!(engine.claim(), Claim::Granted);
    assert_eq!(engine.populate(&currencies(), &too_many), Err(CacheError::CapacityExceeded));
    assert_eq!(engine.current(), CacheState::Empty);
    assert_eq!(engine.display_cache(), vec![]);
    assert_eq!(engine.resolve("usd"), Err(CacheError::UnknownCurrency));
    // the load can be tried again
    assert_eq!(engine.claim(), Claim::Granted);
    assert_eq!(engine.populate(&currencies(), &rates()), Ok((4, 6)));
    assert_eq!(engine.current(), CacheState::Filled);
}

#[test]
fn too_many_currencies_fail_the_load() {
    let mut engine = CacheEngine::new();
    let many: Vec<(i64, String)> = (0..65).map(|i| (i, format!("c{i}"))).collect();
    assert_eq!(engine.populate(&many, &rates()), Err(CacheError::CapacityExceeded));
    assert_eq!(engine.current(), CacheState::Empty);
    let fitting: Vec<(i64, String)> = (0..64).map(|i| (i, format!("c{i}"))).collect();
    assert_eq!(engine.populate(&fitting, &rates()), Ok((64, 6)));
    assert_eq!(engine.resolve("C63"), Ok(63));
}

#[test]
fn a_failed_read_resets_the_cache() {
    let mut engine = CacheEngine::new();
    assert_eq!(engine.claim(), Claim::Granted);
    assert_eq!(engine.current(), CacheState::Populating);
    assert_eq!(engine.source_failed(), CacheError::SourceReadFailure);
    assert_eq!(engine.current(), CacheState::Empty);
    assert_eq!(engine.claim(), Claim::Granted);
}

#[test]
fn a_later_identity_row_replaces_an_earlier_one() {
    let mut engine = CacheEngine::new();
    let rows = vec![(1, "usd".to_string()), (9, "USD".to_string())];
    assert_eq!(engine.populate(&rows, &vec![]), Ok((2, 0)));
    assert_eq!(engine.resolve("usd"), Ok(9));
}

#[test]
fn every_failure_has_its_message() {
    assert_eq!(
        CacheError::SchemaIncompatible.message(),
        "The current database is not compatible with the ketteQ FX extension."
    );
    assert_eq!(
        CacheError::LengthMismatch.message(),
        "dates and values arrays does not have the same quantity of elements"
    );
    assert_eq!(CacheError::UnknownCurrency.message(), "currency xuid not found");
    assert_eq!(
        CacheError::CapacityExceeded.message(),
        "a bounded collection of the currency cache is full"
    );
    assert_eq!(
        CacheError::SourceReadFailure.message(),
        "cannot load the currency cache from the database"
    );
}

#[test]
fn rows_in_ascending_order_are_kept_as_they_come() {
    let mut engine = CacheEngine::new();
    let rows = vec![
        (1, 2, 0, bits(1.0)),
        (1, 2, 3, bits(2.0)),
        (1, 2, 3, bits(3.0)),
        (2, 1, -4, bits(4.0)),
        (1, 2, 9, bits(5.0)),
    ];
    assert_eq!(engine.populate(&vec![], &rows), Ok((0, 5)));
    assert_eq!(
        engine.display_cache(),
        vec![
            (1, 2, 0, bits(1.0)),
            (1, 2, 3, bits(2.0)),
            (1, 2, 3, bits(3.0)),
            (1, 2, 9, bits(5.0)),
            (2, 1, -4, bits(4.0)),
        ]
    );
    // of two samples of one date the later row is in effect
    assert_eq!(engine.get_rate(1, 2, 3), Some(bits(3.0)));
    assert_eq!(engine.get_rate(1, 2, 8), Some(bits(3.0)));
}

#[test]
fn the_public_types_are_at_the_root() {
    let control = kq_fx::CurrencyControl::new();
    assert_eq!(control.current(), CacheState::Empty);
    let pair = kq_fx::DateValue { date: 3, value: bits(1.5) };
    assert_eq!(pair.clone(), pair);
    assert_eq!(f64::from_bits(pair.value), 1.5);
}

#[test]
fn a_load_of_1025_pairs_fails() {
    let mut engine = CacheEngine::new();
    let rows: Vec<(i64, i64, i32, u64)> = (0..1025).map(|i| (i, -i, 0, bits(1.0))).collect();
    assert_eq!(engine.populate(&vec![], &rows), Err(CacheError::CapacityExceeded));
    assert_eq!(engine.display_cache(), vec![]);
    assert_eq!(engine.populate(&vec![], &rows[..1024].to_vec()), Ok((0, 1024)));
    assert_eq!(engine.display_cache().len(), 1024);
}
