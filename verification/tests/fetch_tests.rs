use skopje::error::{EtlError, StoreStage};
use skopje::fetch::{fetch_or_insert_step, FoiEvent, FoiState};

/// A model reference table with a uniqueness constraint on the key column.
struct Table {
    rows: Vec<(String, i64)>,
}

impl Table {
    fn new() -> Table {
        Table { rows: Vec::new() }
    }

    fn fetch(&self, key: &str) -> FoiEvent {
        if self.rows.iter().any(|(k, _)| k == key) {
            FoiEvent::FetchHit
        } else {
            FoiEvent::FetchMiss
        }
    }

    fn insert(&mut self, key: &str, value: i64) -> FoiEvent {
        if self.rows.iter().any(|(k, _)| k == key) {
            FoiEvent::InsertErr
        } else {
            self.rows.push((key.to_string(), value));
            FoiEvent::InsertOk
        }
    }
}

#[test]
fn concurrent_fetch_or_insert_leaves_one_row() {
    // Two callers interleave on an empty table: both miss the first fetch,
    // one wins the insert, the other's insert is rejected by the unique
    // constraint and surfaces as an error — never as a second row.
    let mut table = Table::new();
    let mut a = FoiState::FirstFetch;
    let mut b = FoiState::FirstFetch;

    a = fetch_or_insert_step(a, table.fetch("eur"));
    b = fetch_or_insert_step(b, table.fetch("eur"));
    assert_eq!(a, FoiState::Inserting);
    assert_eq!(b, FoiState::Inserting);

    let ev = table.insert("eur", 1);
    a = fetch_or_insert_step(a, ev);
    let ev = table.insert("eur", 2);
    b = fetch_or_insert_step(b, ev);

    a = fetch_or_insert_step(a, table.fetch("eur"));
    assert_eq!(a, FoiState::Done);
    assert_eq!(
        b,
        FoiState::Failed(EtlError::StoreProtocol { stage: StoreStage::Insert })
    );
    assert_eq!(table.rows.len(), 1);
    assert_eq!(table.rows[0], ("eur".to_string(), 1));
}

#[test]
fn second_caller_succeeds_through_the_fetch_path() {
    // The slower caller starts after the winner committed: its first fetch
    // hits and it never attempts the insert.
    let mut table = Table::new();
    let mut a = FoiState::FirstFetch;

    a = fetch_or_insert_step(a, table.fetch("eur"));
    let ev = table.insert("eur", 1);
    a = fetch_or_insert_step(a, ev);
    a = fetch_or_insert_step(a, table.fetch("eur"));
    assert_eq!(a, FoiState::Done);

    let mut b = FoiState::FirstFetch;
    b = fetch_or_insert_step(b, table.fetch("eur"));
    assert_eq!(b, FoiState::Done);
    assert_eq!(table.rows.len(), 1);
}

#[test]
fn second_fetch_missing_is_a_race_loss() {
    // Driven straight through the machine: a miss after an accepted insert
    // means someone else's transaction interfered; the session fails rather
    // than silently returning stale data.
    let mut s = FoiState::FirstFetch;
    s = fetch_or_insert_step(s, FoiEvent::FetchMiss);
    s = fetch_or_insert_step(s, FoiEvent::InsertOk);
    s = fetch_or_insert_step(s, FoiEvent::FetchMiss);
    assert_eq!(s, FoiState::Failed(EtlError::RaceLoss));
}

#[test]
fn hit_on_first_fetch_ends_the_session() {
    let s = fetch_or_insert_step(FoiState::FirstFetch, FoiEvent::FetchHit);
    assert_eq!(s, FoiState::Done);
}
