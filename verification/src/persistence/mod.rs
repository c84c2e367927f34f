//! Graph persistence: the records kept in the store, the keys of the
//! mutation log, the replay of logged mutations onto a graph, and recovery
//! from a snapshot plus the log written after it.
//!
//! Reading and writing the store itself is the embedder's part; this module
//! decides what the records mean.

pub mod keys;
pub mod replay;
pub mod types;

use vstd::prelude::*;

verus! {

/// Seconds between periodic snapshots unless configured otherwise.
pub const DEFAULT_SNAPSHOT_INTERVAL_SECS: u64 = 300;

/// Errors from the graph store
#[derive(Debug)]
pub enum GraphStoreError {
    Io(String),
    Fjall(String),
    Redb(String),
}

/// The text of an error: its kind, then its detail.
pub open spec fn error_text(e: GraphStoreError) -> Seq<char> {
    match e {
        GraphStoreError::Io(d) => "IO error: "@ + d@,
        GraphStoreError::Fjall(d) => "Fjall error: "@ + d@,
        GraphStoreError::Redb(d) => "Redb error: "@ + d@,
    }
}

impl GraphStoreError {
    /// The text of the error, as it is displayed.
    pub fn message(&self) -> (text: String)
        ensures
            text@ == error_text(*self),
    {
        match self {
            GraphStoreError::Io(d) => {
                let mut text = String::from_str("IO error: ");
                text.append(d.as_str());
                text
            },
            GraphStoreError::Fjall(d) => {
                let mut text = String::from_str("Fjall error: ");
                text.append(d.as_str());
                text
            },
            GraphStoreError::Redb(d) => {
                let mut text = String::from_str("Redb error: ");
                text.append(d.as_str());
                text
            },
        }
    }
}

/// The detail of the error for a zero snapshot interval.
pub open spec fn zero_interval_detail() -> Seq<char> {
    "Snapshot interval must be greater than zero seconds"@
}

/// Check a periodic snapshot interval: zero seconds is refused with an I/O
/// error; any other value is accepted as it is.
pub fn validate_snapshot_interval(secs: u64) -> (r: Result<u64, GraphStoreError>)
    ensures
        secs == 0 <==> r is Err,
        r is Ok ==> r->Ok_0 == secs,
        r matches Err(GraphStoreError::Io(d)) ==> d@ == zero_interval_detail(),
        r is Err ==> r->Err_0 is Io,
{
    if secs == 0 {
        Err(GraphStoreError::Io(String::from_str("Snapshot interval must be greater than zero seconds")))
    } else {
        Ok(secs)
    }
}

/// Whether a periodic snapshot is due: at least `interval_secs` whole
/// seconds have passed since the last one.
pub fn snapshot_due(elapsed_secs: u64, interval_secs: u64) -> (due: bool)
    ensures
        due == (elapsed_secs >= interval_secs),
{
    elapsed_secs >= interval_secs
}

} // verus!
