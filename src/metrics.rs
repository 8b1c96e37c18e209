use std::sync::Arc;
use vstd::prelude::*;
use vstd::rwlock::{RwLock, RwLockPredicate};
use crate::counters::{distinct_keys, Counters, MetricsError};

verus! {

/// What the lock guarantees of the table it guards: it is well formed.
pub struct TableIsWellFormed;

impl RwLockPredicate<Counters> for TableIsWellFormed {
    open spec fn inv(self, v: Counters) -> bool {
        v.wf()
    }
}

/// A counter store shared between threads; a clone is another handle on the
/// same store.
///
/// Locking: one reader-writer lock guards the whole table. `inc` and `dec`
/// take it exclusively, so every update is applied whole, one after another;
/// `snapshot` takes it shared, so the copy it returns is one consistent
/// instant across all keys. The sequential behaviour of each operation is the
/// contract of the matching `Counters` method, applied under the lock.
///
/// Poisoning: an update that would take a counter out of the range of `i64`
/// is abandoned without being applied, and from then on every operation on
/// the store fails with `SynchronizationFailure`.
#[derive(Clone)]
pub struct Metrics {
    data: Arc<RwLock<Counters, TableIsWellFormed>>,
}

impl Metrics {
    /// A new, empty store.
    pub fn new() -> Self {
        let lock = RwLock::new(Counters::new(), Ghost(TableIsWellFormed));
        Metrics { data: Arc::new(lock) }
    }

    /// Adds one to the counter of `key`, creating it at zero first. Fails,
    /// changing nothing, once the store is poisoned.
    pub fn inc(&self, key: &str) -> (r: Result<(), MetricsError>) {
        let (mut table, handle) = self.data.acquire_write();
        let r = table.inc(key);
        handle.release_write(table);
        r
    }

    /// Subtracts one from the counter of `key`, creating it at zero first.
    /// Fails, changing nothing, once the store is poisoned.
    pub fn dec(&self, key: &str) -> (r: Result<(), MetricsError>) {
        let (mut table, handle) = self.data.acquire_write();
        let r = table.dec(key);
        handle.release_write(table);
        r
    }

    /// An independent copy of every (key, value) pair, each key once, taken
    /// at one instant. Fails once the store is poisoned.
    pub fn snapshot(&self) -> (r: Result<Vec<(String, i64)>, MetricsError>)
        ensures
            r matches Ok(s) ==> distinct_keys(s@),
    {
        let handle = self.data.acquire_read();
        let r = handle.borrow().snapshot();
        handle.release_read();
        r
    }
}

} // verus!
