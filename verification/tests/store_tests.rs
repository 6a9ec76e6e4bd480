use electrack::domain::{PersistError, PricePoint};
use electrack::store::PriceStore;

const HOUR: i64 = 3600;
const JAN1: i64 = 1704067200; // 2024-01-01T00:00:00Z

fn day_of(m: i64) -> i64 {
    m / 86400
}

fn point(m: i64, a: i64) -> PricePoint {
    PricePoint { moment: m, amount_micros: a }
}

fn store_with_tibber() -> PriceStore {
    let mut s = PriceStore::new();
    assert!(s.add_provider(1, String::from("tibber")));
    s
}

#[test]
fn insert_and_existence_check() {
    let mut s = store_with_tibber();
    assert!(!s.exists_for_date(day_of(JAN1)));
    let batch = vec![point(JAN1, 300_000), point(JAN1 + HOUR, 100_000)];
    s.insert_batch(&batch, &String::from("tibber")).unwrap();
    assert!(s.exists_for_date(day_of(JAN1)));
    assert!(!s.exists_for_date(day_of(JAN1) + 1));
}

#[test]
fn unknown_provider_is_rejected() {
    let mut s = store_with_tibber();
    let batch = vec![point(JAN1, 300_000)];
    let r = s.insert_batch(&batch, &String::from("nordpool"));
    assert_eq!(r, Err(PersistError::UnknownProvider));
    assert!(!s.exists_for_date(day_of(JAN1)));
}

#[test]
fn duplicate_against_store_is_rejected_atomically() {
    let mut s = store_with_tibber();
    s.insert_batch(&vec![point(JAN1, 300_000)], &String::from("tibber")).unwrap();
    // The second batch collides on its second point; its first point must
    // not land either.
    let batch = vec![point(JAN1 + HOUR, 150_000), point(JAN1, 140_000)];
    let r = s.insert_batch(&batch, &String::from("tibber"));
    assert_eq!(r, Err(PersistError::DuplicateError));
    let day = s.fetch_prices_of_date(day_of(JAN1));
    assert_eq!(day.len(), 1);
    assert_eq!(day[0].moment, JAN1);
    assert_eq!(day[0].amount_micros, 300_000);
}

#[test]
fn duplicate_within_batch_is_rejected() {
    let mut s = store_with_tibber();
    let batch = vec![point(JAN1, 300_000), point(JAN1, 310_000)];
    let r = s.insert_batch(&batch, &String::from("tibber"));
    assert_eq!(r, Err(PersistError::DuplicateError));
    assert!(!s.exists_for_date(day_of(JAN1)));
}

#[test]
fn two_providers_share_a_moment() {
    // Uniqueness is per provider, not global: both providers may price the
    // same hour.
    let mut s = store_with_tibber();
    assert!(s.add_provider(2, String::from("nordpool")));
    s.insert_batch(&vec![point(JAN1, 300_000)], &String::from("tibber")).unwrap();
    s.insert_batch(&vec![point(JAN1, 280_000)], &String::from("nordpool")).unwrap();
    let day = s.fetch_prices_of_date(day_of(JAN1));
    assert_eq!(day.len(), 2);
    assert_eq!(day[0].moment, JAN1);
    assert_eq!(day[1].moment, JAN1);
}

#[test]
fn provider_registration_rejects_taken_identity() {
    let mut s = store_with_tibber();
    assert!(!s.add_provider(1, String::from("other")));
    assert!(!s.add_provider(9, String::from("tibber")));
    assert!(s.add_provider(2, String::from("nordpool")));
}

#[test]
fn fetch_prices_of_date_partitions_by_day() {
    let mut s = store_with_tibber();
    let batch = vec![
        point(JAN1 + 23 * HOUR, 300_000),
        point(JAN1 + 24 * HOUR, 100_000),
    ];
    s.insert_batch(&batch, &String::from("tibber")).unwrap();
    let first = s.fetch_prices_of_date(day_of(JAN1));
    assert_eq!(first.len(), 1);
    assert_eq!(first[0].moment, JAN1 + 23 * HOUR);
    let second = s.fetch_prices_of_date(day_of(JAN1) + 1);
    assert_eq!(second.len(), 1);
    assert_eq!(second[0].moment, JAN1 + 24 * HOUR);
}

#[test]
fn empty_range_not_found_for_every_duration() {
    let mut s = store_with_tibber();
    s.insert_batch(&vec![point(JAN1, 300_000)], &String::from("tibber")).unwrap();
    // The requested range lies after every stored point.
    let lo = JAN1 + 48 * HOUR;
    let hi = JAN1 + 72 * HOUR;
    for d in [1, 2, 8, 24] {
        assert!(s.fetch_cheapest_window(lo, hi, d).is_err());
    }
    let r = s.fetch_optimal_price_window_of_window_for_durations(lo, hi, &vec![1, 2, 3]);
    assert!(r.is_err());
}

#[test]
fn cheapest_window_through_store() {
    let mut s = store_with_tibber();
    let batch = vec![
        point(JAN1, 300_000),
        point(JAN1 + HOUR, 100_000),
        point(JAN1 + 2 * HOUR, 500_000),
    ];
    s.insert_batch(&batch, &String::from("tibber")).unwrap();
    let w = s.fetch_cheapest_window(JAN1, JAN1 + 2 * HOUR, 2).unwrap();
    assert_eq!(w.starts_at.epoch_secs, JAN1);
    assert_eq!(w.ends_at.epoch_secs, JAN1 + HOUR + 3599);
    assert_eq!(w.average_price(), "0.200");
}

#[test]
fn range_bounds_are_inclusive() {
    let mut s = store_with_tibber();
    let batch = vec![point(JAN1, 300_000), point(JAN1 + HOUR, 100_000)];
    s.insert_batch(&batch, &String::from("tibber")).unwrap();
    let w = s.fetch_cheapest_window(JAN1 + HOUR, JAN1 + HOUR, 1).unwrap();
    assert_eq!(w.starts_at.epoch_secs, JAN1 + HOUR);
    assert_eq!(w.average_price(), "0.100");
}

#[test]
fn one_window_per_requested_duration() {
    let mut s = store_with_tibber();
    let batch = vec![
        point(JAN1, 300_000),
        point(JAN1 + HOUR, 100_000),
        point(JAN1 + 2 * HOUR, 500_000),
    ];
    s.insert_batch(&batch, &String::from("tibber")).unwrap();
    let ws = s
        .fetch_optimal_price_window_of_window_for_durations(JAN1, JAN1 + 2 * HOUR, &vec![1, 2, 3])
        .unwrap();
    assert_eq!(ws.len(), 3);
    assert_eq!(ws[0].starts_at.epoch_secs, JAN1 + HOUR);
    assert_eq!(ws[0].average_price(), "0.100");
    assert_eq!(ws[1].starts_at.epoch_secs, JAN1);
    assert_eq!(ws[1].average_price(), "0.200");
    assert_eq!(ws[2].starts_at.epoch_secs, JAN1);
    assert_eq!(ws[2].average_price(), "0.300");
    // No durations requested: nothing to report, but no failure either.
    let none = s
        .fetch_optimal_price_window_of_window_for_durations(JAN1, JAN1 + 2 * HOUR, &Vec::new())
        .unwrap();
    assert_eq!(none.len(), 0);
}

#[test]
fn batches_arriving_out_of_order_are_kept_ordered() {
    let mut s = store_with_tibber();
    s.insert_batch(&vec![point(JAN1 + 2 * HOUR, 500_000)], &String::from("tibber")).unwrap();
    s.insert_batch(&vec![point(JAN1, 300_000), point(JAN1 + HOUR, 100_000)], &String::from(
        "tibber",
    ))
        .unwrap();
    let day = s.fetch_prices_of_date(day_of(JAN1));
    assert_eq!(day.len(), 3);
    assert!(day[0].moment < day[1].moment && day[1].moment < day[2].moment);
    let w = s.fetch_cheapest_window(JAN1, JAN1 + 2 * HOUR, 2).unwrap();
    assert_eq!(w.average_price(), "0.200");
}
