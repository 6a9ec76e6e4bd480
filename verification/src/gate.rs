//! The availability guard: the cache-aside protocol run once per request.
//! Before a request for "today" is served, the guard checks the store for
//! today's prices; only on a miss does it trigger one fetch-and-persist
//! cycle against the external provider. A fetch failure leaves the store
//! untouched; a persist failure wastes the fetch but commits nothing
//! partially, because the store's bulk insert is atomic.

use vstd::prelude::*;

use crate::domain::{ElectricityProviderError, PersistError, PricePoint};
use crate::store::{
    batch_conflicts, batch_has_dup, find_provider, has_day, tagged, PriceStore, StoredPricePoint,
};

verus! {

/// The guard's per-request state. `Ready` is the only state from which the
/// window optimizer may run; `Failed` is terminal and surfaced to the
/// caller.
pub enum GateState {
    Unknown,
    Fetching,
    Ready,
    Failed(ElectricityProviderError),
}

/// What the outside world reports back to the guard.
pub enum GateEvent {
    /// Whether the store already holds today's prices.
    StoreChecked(bool),
    /// The external fetch finished, with the day's points or an error.
    FetchCompleted(Result<Vec<PricePoint>, ElectricityProviderError>),
    /// The bulk insert of the fetched points finished.
    PersistCompleted(Result<(), PersistError>),
}

/// The text under which a persist failure is surfaced to the caller.
pub open spec fn persist_failure_text(pe: PersistError) -> Seq<char> {
    match pe {
        PersistError::UnknownProvider => "unknown provider"@,
        PersistError::DuplicateError => "duplicate price point"@,
    }
}

/// The guard ended in `Failed` carrying the text of this persist failure.
pub open spec fn failed_on_persist(t: GateState, pe: PersistError) -> bool {
    match t {
        GateState::Failed(e) => match e {
            ElectricityProviderError::FetchPrices(m) => m@ == persist_failure_text(pe),
        },
        _ => false,
    }
}

impl GateState {
    /// One transition of the guard's state machine. From `Unknown`, the
    /// store check decides between `Ready` and `Fetching`. In `Fetching`, a
    /// failed fetch is terminal, a successful fetch awaits its persist, and
    /// the persist outcome decides between `Ready` and `Failed`. `Ready`
    /// and `Failed` are terminal; an event that does not belong to the
    /// current state changes nothing.
    pub fn step(self, event: GateEvent) -> (t: GateState)
        ensures
            self is Unknown ==> (event matches GateEvent::StoreChecked(present) ==> ((t
                is Ready <==> present) && (t is Fetching <==> !present))),
            self is Unknown && !(event is StoreChecked) ==> t is Unknown,
            self is Fetching ==> (event matches GateEvent::FetchCompleted(f) ==> ((f matches Err(e)
                ==> t == GateState::Failed(e)) && (f is Ok ==> t is Fetching))),
            self is Fetching ==> (event matches GateEvent::PersistCompleted(p) ==> (p is Ok ==> t
                is Ready)),
            self is Fetching ==> (event matches GateEvent::PersistCompleted(p) ==> (p matches Err(
                pe,
            ) ==> failed_on_persist(t, pe))),
            self is Fetching && event is StoreChecked ==> t is Fetching,
            self is Ready ==> t is Ready,
            self matches GateState::Failed(e) ==> t == GateState::Failed(e),
    {
        match self {
            GateState::Unknown => match event {
                GateEvent::StoreChecked(present) => if present {
                    GateState::Ready
                } else {
                    GateState::Fetching
                },
                _ => GateState::Unknown,
            },
            GateState::Fetching => match event {
                GateEvent::FetchCompleted(f) => match f {
                    Ok(_) => GateState::Fetching,
                    Err(e) => GateState::Failed(e),
                },
                GateEvent::PersistCompleted(p) => match p {
                    Ok(_) => GateState::Ready,
                    Err(pe) => GateState::Failed(
                        ElectricityProviderError::FetchPrices(pe.message()),
                    ),
                },
                GateEvent::StoreChecked(_) => GateState::Fetching,
            },
            GateState::Ready => GateState::Ready,
            GateState::Failed(e) => GateState::Failed(e),
        }
    }
}

/// The guard triggers an external fetch exactly when the store lacks today's
/// prices.
pub open spec fn gate_triggers_fetch(points: Seq<StoredPricePoint>, today: int) -> bool {
    !has_day(points, today)
}

/// What the store holds after one pass of the guard: untouched when today's
/// prices were already there, else whatever the fetch-and-persist cycle
/// left.
pub open spec fn gate_pass_store(
    points: Seq<StoredPricePoint>,
    today: int,
    filled: Seq<StoredPricePoint>,
) -> Seq<StoredPricePoint> {
    if has_day(points, today) {
        points
    } else {
        filled
    }
}

/// Idempotence of the guard: when the store already holds today's prices,
/// a pass triggers no fetch and leaves the store untouched, so a second
/// pass in immediate succession triggers no fetch either.
pub proof fn lemma_gate_idempotent(
    points: Seq<StoredPricePoint>,
    today: int,
    filled: Seq<StoredPricePoint>,
)
    requires
        has_day(points, today),
    ensures
        !gate_triggers_fetch(points, today),
        gate_pass_store(points, today, filled) == points,
        !gate_triggers_fetch(gate_pass_store(points, today, filled), today),
{
}

/// The guard's store check: a fetch is needed only when no point of the
/// store falls on today's calendar day.
pub fn gate_needs_fetch(store: &PriceStore, today_day: i64) -> (r: bool)
    requires
        store.wf(),
    ensures
        r == gate_triggers_fetch(store.points@, today_day as int),
{
    !store.exists_for_date(today_day)
}

/// The fetch-and-persist cycle's bookkeeping, run when the guard found a
/// gap: a failed fetch is returned as it is and the insert never runs; a
/// fetched batch is persisted atomically, and a persist failure is
/// reported as a provider error while the store keeps its old points.
pub fn store_fetched_prices(
    store: &mut PriceStore,
    fetch_result: Result<Vec<PricePoint>, ElectricityProviderError>,
    provider_name: &String,
) -> (r: Result<Vec<PricePoint>, ElectricityProviderError>)
    requires
        old(store).wf(),
        fetch_result matches Ok(ps) ==> forall|k: int|
            0 <= k < ps@.len() ==> (#[trigger] ps@[k]).wf(),
    ensures
        final(store).wf(),
        final(store).providers@ == old(store).providers@,
        fetch_result matches Err(e) ==> final(store).points@ == old(store).points@ && r
            == Err::<Vec<PricePoint>, ElectricityProviderError>(e),
        fetch_result matches Ok(ps) ==> {
            let found = find_provider(old(store).providers@, provider_name@);
            &&& (r is Ok <==> (found is Some && !batch_has_dup(ps@) && (found matches Some(pid)
                ==> !batch_conflicts(old(store).points@, ps@, pid as int))))
            &&& (r matches Ok(out) ==> out@ == ps@ && final(store).points@.len() == old(
                store,
            ).points@.len() + ps@.len() && (found matches Some(pid) ==> (forall|
                q: StoredPricePoint,
            |
                final(store).points@.contains(q) <==> (old(store).points@.contains(q) || exists|
                    k: int,
                | 0 <= k < ps@.len() && q == tagged(#[trigger] ps@[k], pid)))))
            &&& (r is Err ==> (final(store).points@ == old(store).points@ && (r matches Err(
                err,
            ) && err is FetchPrices)))
        },
{
    match fetch_result {
        Err(e) => Err(e),
        Ok(prices) => {
            match store.insert_batch(&prices, provider_name) {
                Ok(_) => Ok(prices),
                Err(pe) => Err(ElectricityProviderError::FetchPrices(pe.message())),
            }
        },
    }
}

} // verus!
