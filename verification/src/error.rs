use vstd::prelude::*;

verus! {

/// The store operation during which a protocol failure surfaced.
#[derive(Clone, Copy, Debug, PartialEq, Eq, Structural)]
pub enum StoreStage {
    Connect,
    Prepare,
    Execute,
    Copy,
    Commit,
    Fetch,
    Insert,
}

/// Every failure this toolkit reports to its callers.
#[derive(Clone, Copy, Debug, PartialEq, Eq, Structural)]
pub enum EtlError {
    /// An HTTP range request came back with a status other than 206.
    TransientNetwork { status: u16 },
    /// The relational store rejected a protocol step.
    StoreProtocol { stage: StoreStage },
    /// A record's row arity disagrees with the target statement's columns.
    SchemaMismatch { expected: usize, got: usize },
    /// A concurrent insert won the race and the follow-up fetch failed.
    RaceLoss,
}

impl EtlError {
    /// A short description, usable where a display form is wanted.
    pub fn describe(&self) -> (r: &'static str)
        ensures
            r@.len() > 0,
    {
        proof {
            reveal_strlit("range request refused");
            reveal_strlit("store protocol failure");
            reveal_strlit("row shape does not match the statement");
            reveal_strlit("lost a fetch-or-insert race");
        }
        match self {
            EtlError::TransientNetwork { .. } => "range request refused",
            EtlError::StoreProtocol { .. } => "store protocol failure",
            EtlError::SchemaMismatch { .. } => "row shape does not match the statement",
            EtlError::RaceLoss => "lost a fetch-or-insert race",
        }
    }
}

} // verus!
