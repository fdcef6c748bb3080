//! The hot-reload rule: a fresh scan replaces the live snapshot only when
//! it succeeded; a failed scan leaves the previous snapshot untouched, so
//! the server is never without a usable one.
//!
//! The surrounding program owns a controller behind its reader/writer lock,
//! polls its reload flag, runs the scan outside any lock, and hands the
//! outcome here for the swap.

use vstd::prelude::*;

use crate::ignore::ScanError;
use crate::routes::{route_path_spec, RouteView};
use crate::snapshot::{Snapshot, SnapshotView};

verus! {

/// The owner of the live snapshot.
pub struct Controller {
    snapshot: Snapshot,
}

impl View for Controller {
    type V = SnapshotView;

    closed spec fn view(&self) -> SnapshotView {
        self.snapshot@
    }
}

/// What a reload outcome leaves in place: the fresh snapshot on success,
/// the current one on failure.
pub open spec fn spec_apply_reload(
    cur: SnapshotView,
    outcome: Result<Snapshot, ScanError>,
) -> SnapshotView {
    match outcome {
        Ok(s) => s@,
        Err(_) => cur,
    }
}

impl Controller {
    /// Starts with the snapshot of the initial scan.
    pub fn new(initial: Snapshot) -> (r: Controller)
        ensures
            r@ == initial@,
    {
        Controller { snapshot: initial }
    }

    /// The live snapshot.
    pub fn current(&self) -> (r: &Snapshot)
        ensures
            r@ == self@,
    {
        &self.snapshot
    }

    /// Installs the outcome of a scan: the fresh snapshot on success, and
    /// on failure the previous one stays, untouched. Says whether it
    /// swapped.
    pub fn apply_reload(&mut self, outcome: Result<Snapshot, ScanError>) -> (swapped: bool)
        ensures
            final(self)@ == spec_apply_reload(old(self)@, outcome),
            swapped == (outcome matches Ok(_)),
    {
        match outcome {
            Ok(s) => {
                self.snapshot = s;
                true
            },
            Err(_) => false,
        }
    }
}

/// Reload failure safety: after a failed reload the live snapshot is the
/// previous one, so every request resolves exactly as it did before the
/// failed scan.
pub proof fn lemma_reload_failure_preserves_routing(
    cur: SnapshotView,
    err: ScanError,
    path: Seq<char>,
)
    ensures
        spec_apply_reload(cur, Err(err)) == cur,
        route_path_spec(path, spec_apply_reload(cur, Err(err))) == route_path_spec(path, cur),
{
}

} // verus!
