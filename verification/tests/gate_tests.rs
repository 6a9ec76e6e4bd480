use electrack::domain::{
    resolve_electricity_provider, ElectricityProviderError, PricePoint, Tibber,
};
use electrack::gate::{gate_needs_fetch, store_fetched_prices, GateEvent, GateState};
use electrack::store::PriceStore;

const HOUR: i64 = 3600;
const JAN1: i64 = 1704067200; // 2024-01-01T00:00:00Z
const JAN1_DAY: i64 = 1704067200 / 86400;

fn point(m: i64, a: i64) -> PricePoint {
    PricePoint { moment: m, amount_micros: a }
}

fn filled_store() -> PriceStore {
    let mut s = PriceStore::new();
    assert!(s.add_provider(1, String::from("tibber")));
    s.insert_batch(&vec![point(JAN1, 300_000), point(JAN1 + HOUR, 100_000)], &String::from(
        "tibber",
    ))
        .unwrap();
    s
}

#[test]
fn gate_is_idempotent_when_today_is_present() {
    // Two passes in immediate succession over a store that already holds
    // today's prices: neither pass triggers a fetch.
    let s = filled_store();
    let mut fetches = 0;
    for _ in 0..2 {
        let state = GateState::Unknown.step(GateEvent::StoreChecked(
            !gate_needs_fetch(&s, JAN1_DAY),
        ));
        if matches!(state, GateState::Fetching) {
            fetches += 1;
        } else {
            assert!(matches!(state, GateState::Ready));
        }
    }
    assert_eq!(fetches, 0);
}

#[test]
fn gate_fetches_on_missing_day() {
    let s = filled_store();
    assert!(gate_needs_fetch(&s, JAN1_DAY + 1));
    let state = GateState::Unknown.step(GateEvent::StoreChecked(false));
    assert!(matches!(state, GateState::Fetching));
}

#[test]
fn gate_fetch_failure_is_terminal() {
    let state = GateState::Fetching.step(GateEvent::FetchCompleted(Err(
        ElectricityProviderError::FetchPrices(String::from("connection refused")),
    )));
    match state {
        GateState::Failed(ElectricityProviderError::FetchPrices(m)) => {
            assert_eq!(m, "connection refused");
        },
        _ => panic!("fetch failure must end in Failed"),
    }
}

#[test]
fn gate_persist_outcome_decides() {
    let ready = GateState::Fetching.step(GateEvent::PersistCompleted(Ok(())));
    assert!(matches!(ready, GateState::Ready));
    let failed = GateState::Fetching.step(GateEvent::PersistCompleted(Err(
        electrack::domain::PersistError::DuplicateError,
    )));
    match failed {
        GateState::Failed(ElectricityProviderError::FetchPrices(m)) => {
            assert_eq!(m, "duplicate price point");
        },
        _ => panic!("persist failure must end in Failed"),
    }
}

#[test]
fn failed_fetch_leaves_store_untouched() {
    let mut s = PriceStore::new();
    assert!(s.add_provider(1, String::from("tibber")));
    let r = store_fetched_prices(
        &mut s,
        Err(ElectricityProviderError::FetchPrices(String::from("timeout"))),
        &String::from("tibber"),
    );
    match r {
        Err(ElectricityProviderError::FetchPrices(m)) => assert_eq!(m, "timeout"),
        _ => panic!("the fetch error must be surfaced"),
    }
    assert!(!s.exists_for_date(JAN1_DAY));
}

#[test]
fn fetched_batch_is_persisted_and_returned() {
    let mut s = PriceStore::new();
    assert!(s.add_provider(1, String::from("tibber")));
    let batch = vec![point(JAN1, 300_000), point(JAN1 + HOUR, 100_000)];
    let r = store_fetched_prices(&mut s, Ok(batch.clone()), &String::from("tibber"));
    let out = r.unwrap();
    assert_eq!(out.len(), 2);
    assert_eq!(out[0], batch[0]);
    assert_eq!(out[1], batch[1]);
    assert!(s.exists_for_date(JAN1_DAY));
}

#[test]
fn persist_failure_is_reported_as_provider_error() {
    let mut s = filled_store();
    // The same batch again: duplicates, so nothing further may land.
    let r = store_fetched_prices(&mut s, Ok(vec![point(JAN1, 300_000)]), &String::from(
        "tibber",
    ));
    match r {
        Err(ElectricityProviderError::FetchPrices(m)) => {
            assert_eq!(m, "duplicate price point");
        },
        _ => panic!("a duplicate must be surfaced as a provider error"),
    }
    assert_eq!(s.fetch_prices_of_date(JAN1_DAY).len(), 2);
}

#[test]
fn unknown_provider_on_persist() {
    let mut s = PriceStore::new();
    let r = store_fetched_prices(&mut s, Ok(vec![point(JAN1, 300_000)]), &String::from(
        "tibber",
    ));
    match r {
        Err(ElectricityProviderError::FetchPrices(m)) => assert_eq!(m, "unknown provider"),
        _ => panic!("an unknown provider must be surfaced"),
    }
}

#[test]
fn tibber_configuration() {
    let t = Tibber::new(String::from("SECRET-REDACTED"));
    assert_eq!(t.api_key().as_str(), "SECRET-REDACTED");
    assert_eq!(t.name().as_str(), "tibber");
}

#[test]
fn provider_resolution() {
    let t = resolve_electricity_provider(&String::from("tibber"), Some(String::from("key")));
    assert_eq!(t.unwrap().api_key().as_str(), "key");
    assert!(resolve_electricity_provider(&String::from("tibber"), None).is_none());
    assert!(
        resolve_electricity_provider(&String::from("vattenfall"), Some(String::from("key")))
            .is_none()
    );
}
