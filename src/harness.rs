//! The upgrade entry points: the production run, and the verification run that
//! wraps it with a pre-state snapshot, fatal checks and a post-state comparison.

use vstd::prelude::*;

use crate::error::{MigrationError, Violation};
use crate::plan::{Expect, MigrationSet, UnitPlan};
use crate::runner::{find_failure, first_failure, run, run_spec};
use crate::store::{param_of, set_version_spec, version_of, Store, StoreModel};
use crate::weight::{Perbill, RuntimeDbWeight, Weight};

verus! {

/// The recorded version of each unit of `units`, in order.
pub open spec fn snapshot_of(s: StoreModel, units: Seq<UnitPlan>) -> Seq<u64> {
    Seq::new(units.len(), |i: int| version_of(s, units[i].unit))
}

/// The first unit, from index `i` on, that is not recorded at the version its
/// plan brings it to from the version in `snap`.
pub open spec fn version_failure_from(s: StoreModel, units: Seq<UnitPlan>, snap: Seq<u64>, i: int) -> Option<Violation>
    decreases units.len() - i,
{
    if i < 0 || i >= units.len() {
        None
    } else if version_of(s, units[i].unit) != units[i].next_version(snap[i]) {
        Some(Violation::Version {
            unit: units[i].unit,
            expected: units[i].next_version(snap[i]),
            found: version_of(s, units[i].unit),
        })
    } else {
        version_failure_from(s, units, snap, i + 1)
    }
}

/// The comparison after a run: every unit at the version its plan brings it to
/// from the snapshot, then every expected parameter value.
pub open spec fn post_upgrade_spec(s: StoreModel, units: Seq<UnitPlan>, expected: Seq<Expect>, snap: Seq<u64>) -> Result<(), MigrationError> {
    match version_failure_from(s, units, snap, 0) {
        Some(v) => Err(MigrationError::InvariantViolation(v)),
        None => match first_failure(s, expected) {
            Some(e) => Err(
                MigrationError::InvariantViolation(
                    Violation::Value { key: e.key, wanted: e.value, held: param_of(s, e.key) },
                ),
            ),
            None => Ok(()),
        },
    }
}

/// The recorded versions of a set's units before a run.
pub struct Snapshot {
    pub versions: Vec<u64>,
}

/// A migration set with the parameter values that must hold after it has run.
pub struct Migration {
    pub set: MigrationSet,
    pub expected: Vec<Expect>,
}

impl Migration {
    pub fn new(set: MigrationSet, expected: Vec<Expect>) -> (r: Migration)
        ensures
            r.set == set,
            r.expected == expected,
    {
        Migration { set, expected }
    }

    /// The production run: checks are not run; returns the sum of the costs of
    /// the steps applied.
    pub fn on_runtime_upgrade(&self, store: &mut Store) -> (r: Result<Weight, MigrationError>)
        requires
            self.set.wf(),
        ensures
            (final(store)@, r) == run_spec(old(store)@, self.set.units@, false),
    {
        run(store, &self.set, false)
    }

    /// Records the version of each unit of the set.
    pub fn pre_upgrade(&self, store: &Store) -> (r: Snapshot)
        ensures
            r.versions@ == snapshot_of(store@, self.set.units@),
    {
        let n = self.set.units.len();
        let mut versions: Vec<u64> = Vec::new();
        let mut i: usize = 0;
        while i < n
            invariant
                n == self.set.units@.len(),
                0 <= i <= n,
                versions@ =~= snapshot_of(store@, self.set.units@).take(i as int),
            decreases n - i,
        {
            versions.push(store.current_version(self.set.units[i].unit));
            i += 1;
        }
        assert(versions@ =~= snapshot_of(store@, self.set.units@));
        Snapshot { versions }
    }

    /// Compares the store after a run with `snapshot`, taken before it, and with
    /// the expected parameter values.
    pub fn post_upgrade(&self, store: &Store, snapshot: &Snapshot) -> (r: Result<(), MigrationError>)
        requires
            snapshot.versions@.len() == self.set.units@.len(),
            self.set.wf(),
        ensures
            r == post_upgrade_spec(store@, self.set.units@, self.expected@, snapshot.versions@),
    {
        let ghost units = self.set.units@;
        let ghost snap = snapshot.versions@;
        let n = self.set.units.len();
        let mut i: usize = 0;
        while i < n
            invariant
                n == units.len(),
                units == self.set.units@,
                snap == snapshot.versions@,
                snap.len() == n,
                self.set.wf(),
                0 <= i <= n,
                version_failure_from(store@, units, snap, 0) == version_failure_from(store@, units, snap, i as int),
            decreases n - i,
        {
            let plan = &self.set.units[i];
            assert(plan.wf());
            let found = store.current_version(plan.unit);
            let from = snapshot.versions[i];
            let steps = plan.steps.len();
            let expected = if steps > 0 && plan.steps[0].from <= from && from - plan.steps[0].from < steps as u64 {
                plan.steps[0].from + steps as u64
            } else {
                from
            };
            if found != expected {
                return Err(MigrationError::InvariantViolation(Violation::Version { unit: plan.unit, expected, found }));
            }
            i += 1;
        }
        match find_failure(store, &self.expected) {
            Some(e) => Err(
                MigrationError::InvariantViolation(
                    Violation::Value { key: e.key, wanted: e.value, held: store.param(e.key) },
                ),
            ),
            None => Ok(()),
        }
    }

    /// The verification run: takes a snapshot, runs with every check fatal, then
    /// compares the store with the snapshot and the expected values.
    pub fn try_on_runtime_upgrade(&self, store: &mut Store) -> (r: Result<Weight, MigrationError>)
        requires
            self.set.wf(),
        ensures
            final(store)@ == run_spec(old(store)@, self.set.units@, true).0,
            r == match run_spec(old(store)@, self.set.units@, true).1 {
                Err(e) => Err(e),
                Ok(w) => match post_upgrade_spec(
                    final(store)@,
                    self.set.units@,
                    self.expected@,
                    snapshot_of(old(store)@, self.set.units@),
                ) {
                    Err(e) => Err(e),
                    Ok(_) => Ok(w),
                },
            },
    {
        let snapshot = self.pre_upgrade(store);
        let r = run(store, &self.set, true);
        match r {
            Err(e) => Err(e),
            Ok(w) => match self.post_upgrade(store, &snapshot) {
                Err(e) => Err(e),
                Ok(_) => Ok(w),
            },
        }
    }
}

/// Raises the stamp of one unit to a fixed version where it is recorded below
/// it; a stamp at or above it is left as it is.
pub struct SetStorageVersions {
    pub unit: u64,
    pub version: u64,
}

impl SetStorageVersions {
    /// Returns the cost of one read and one write where it raises the stamp,
    /// and no cost where the stamp is already at or above the version.
    pub fn on_runtime_upgrade(&self, store: &mut Store, db: RuntimeDbWeight) -> (r: Result<Weight, MigrationError>)
        ensures
            version_of(old(store)@, self.unit) < self.version ==> {
                let (t, w) = set_version_spec(old(store)@, self.unit, self.version);
                &&& final(store)@ == t
                &&& r == match w {
                    Err(e) => Err(e),
                    Ok(_) => Ok(db.spec_reads_writes(1, 1)),
                }
            },
            version_of(old(store)@, self.unit) >= self.version ==> final(store)@ == old(store)@ && r == Ok::<Weight, MigrationError>(Weight::spec_zero()),
    {
        let current = store.current_version(self.unit);
        if current >= self.version {
            return Ok(Weight::zero());
        }
        let w = store.set_version(self.unit, self.version);
        if let Err(e) = w {
            return Err(e);
        }
        Ok(db.reads_writes(1, 1))
    }
}

/// The share that the nomination pools kept under their old layout, handed to
/// the upstream layout migration of that unit: none.
pub struct NominationPoolsMigrationV4OldPallet;

impl NominationPoolsMigrationV4OldPallet {
    pub fn get() -> (r: Perbill)
        ensures
            r.parts == 0,
    {
        Perbill::zero()
    }
}

} // verus!
