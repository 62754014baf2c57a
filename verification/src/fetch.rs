//! The decision core of the fetch-or-insert idiom for reference data: fetch
//! first; on a miss insert, then fetch again and return that result. The
//! second fetch failing means a concurrent insert won the race, and the
//! whole operation fails rather than silently returning stale data.

use vstd::prelude::*;
use crate::error::{EtlError, StoreStage};

verus! {

/// Where a fetch-or-insert session stands.
#[derive(Clone, Copy, Debug, PartialEq, Eq, Structural)]
pub enum FoiState {
    /// The first fetch is in flight.
    FirstFetch,
    /// The first fetch missed; the insert is in flight.
    Inserting,
    /// The insert went through; the second fetch is in flight.
    Refetch,
    /// A fetch returned the row: the session's value is that row.
    Done,
    /// The session failed with the attached error.
    Failed(EtlError),
}

/// What the store answered to the step in flight.
#[derive(Clone, Copy, Debug, PartialEq, Eq, Structural)]
pub enum FoiEvent {
    /// A fetch returned exactly one row.
    FetchHit,
    /// A fetch returned no row (or failed).
    FetchMiss,
    /// The insert statement went through.
    InsertOk,
    /// The store rejected the insert — under a unique constraint, the mark
    /// of a concurrent insert having won.
    InsertErr,
}

/// Whether the event is one the state's step in flight can answer with.
pub open spec fn foi_event_fits(state: FoiState, event: FoiEvent) -> bool {
    match state {
        FoiState::FirstFetch => event is FetchHit || event is FetchMiss,
        FoiState::Inserting => event is InsertOk || event is InsertErr,
        FoiState::Refetch => event is FetchHit || event is FetchMiss,
        FoiState::Done => false,
        FoiState::Failed(_) => false,
    }
}

/// The next state of a session: a hit ends it with the fetched row; a first
/// miss moves to the insert; an accepted insert moves to the second fetch; a
/// rejected insert fails the session at the insert stage; a second miss is a
/// lost race and fails the session.
pub open spec fn foi_next(state: FoiState, event: FoiEvent) -> FoiState {
    match (state, event) {
        (FoiState::FirstFetch, FoiEvent::FetchHit) => FoiState::Done,
        (FoiState::FirstFetch, FoiEvent::FetchMiss) => FoiState::Inserting,
        (FoiState::Inserting, FoiEvent::InsertOk) => FoiState::Refetch,
        (FoiState::Inserting, FoiEvent::InsertErr) => FoiState::Failed(
            EtlError::StoreProtocol { stage: StoreStage::Insert },
        ),
        (FoiState::Refetch, FoiEvent::FetchHit) => FoiState::Done,
        (FoiState::Refetch, FoiEvent::FetchMiss) => FoiState::Failed(EtlError::RaceLoss),
        (s, _) => s,
    }
}

/// Advance a fetch-or-insert session by one store answer.
pub fn fetch_or_insert_step(state: FoiState, event: FoiEvent) -> (next: FoiState)
    requires
        foi_event_fits(state, event),
    ensures
        next == foi_next(state, event),
{
    match (state, event) {
        (FoiState::FirstFetch, FoiEvent::FetchHit) => FoiState::Done,
        (FoiState::FirstFetch, FoiEvent::FetchMiss) => FoiState::Inserting,
        (FoiState::Inserting, FoiEvent::InsertOk) => FoiState::Refetch,
        (FoiState::Inserting, FoiEvent::InsertErr) => FoiState::Failed(
            EtlError::StoreProtocol { stage: StoreStage::Insert },
        ),
        (FoiState::Refetch, FoiEvent::FetchHit) => FoiState::Done,
        (FoiState::Refetch, FoiEvent::FetchMiss) => FoiState::Failed(EtlError::RaceLoss),
        (s, _) => s,
    }
}

/// The state a whole session reaches from the start, one answer at a time.
pub open spec fn foi_run(events: Seq<FoiEvent>) -> FoiState
    decreases events.len(),
{
    if events.len() == 0 {
        FoiState::FirstFetch
    } else {
        foi_next(foi_run(events.drop_last()), events.last())
    }
}

/// A session never ends well without the store having handed back a row:
/// every run that reaches `Done` saw a fetch hit — success always comes out
/// of a fetch, never out of the insert alone.
pub proof fn lemma_foi_done_means_fetched(events: Seq<FoiEvent>)
    requires
        foi_run(events) is Done,
    ensures
        exists|i: int| 0 <= i < events.len() && events[i] is FetchHit,
    decreases events.len(),
{
    let prev = foi_run(events.drop_last());
    if prev is Done {
        lemma_foi_done_means_fetched(events.drop_last());
        let i = choose|i: int|
            0 <= i < events.drop_last().len() && events.drop_last()[i] is FetchHit;
        assert(events[i] is FetchHit);
    } else {
        assert(events.last() is FetchHit);
    }
}

} // verus!
