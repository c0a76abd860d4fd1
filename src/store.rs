//! The keyed store that the engine migrates: one version stamp per unit and the
//! parameters that migration steps read and write.

use std::collections::HashMap;
use vstd::prelude::*;

use crate::error::MigrationError;

verus! {

broadcast use vstd::std_specs::hash::group_hash_axioms;

/// What a store holds: the stamps by unit, the parameters by key, and how many
/// more writes it accepts (`None`: no limit).
pub struct StoreModel {
    pub stamps: Map<u64, u64>,
    pub params: Map<u64, u64>,
    pub writes_left: Option<u64>,
}

/// The recorded version of `unit`; a unit without a stamp is at version 0.
pub open spec fn version_of(s: StoreModel, unit: u64) -> u64 {
    if s.stamps.contains_key(unit) {
        s.stamps[unit]
    } else {
        0
    }
}

pub open spec fn param_of(s: StoreModel, key: u64) -> Option<u64> {
    if s.params.contains_key(key) {
        Some(s.params[key])
    } else {
        None
    }
}

/// The store after one accepted write has been counted, or `None` where it
/// accepts no more writes.
pub open spec fn spend_write(s: StoreModel) -> Option<StoreModel> {
    match s.writes_left {
        None => Some(s),
        Some(n) => if n == 0 {
            None
        } else {
            Some(StoreModel { writes_left: Some((n - 1) as u64), ..s })
        },
    }
}

/// Writing `value` under parameter `key`: the store afterwards and the outcome.
pub open spec fn put_param_spec(s: StoreModel, key: u64, value: u64) -> (StoreModel, Result<(), MigrationError>) {
    match spend_write(s) {
        None => (s, Err(MigrationError::WriteFailure)),
        Some(t) => (StoreModel { params: t.params.insert(key, value), ..t }, Ok(())),
    }
}

/// Setting the stamp of `unit` to `v`: refused unless `v` is above the recorded
/// version, then written if the store accepts the write.
pub open spec fn set_version_spec(s: StoreModel, unit: u64, v: u64) -> (StoreModel, Result<(), MigrationError>) {
    if v <= version_of(s, unit) {
        (s, Err(MigrationError::NonMonotonicVersion { unit, current: version_of(s, unit), requested: v }))
    } else {
        match spend_write(s) {
            None => (s, Err(MigrationError::WriteFailure)),
            Some(t) => (StoreModel { stamps: t.stamps.insert(unit, v), ..t }, Ok(())),
        }
    }
}

/// An in-memory keyed store with an optional limit on the number of writes it
/// accepts, after which every write fails.
pub struct Store {
    stamps: HashMap<u64, u64>,
    params: HashMap<u64, u64>,
    writes_left: Option<u64>,
}

impl View for Store {
    type V = StoreModel;

    closed spec fn view(&self) -> StoreModel {
        StoreModel { stamps: self.stamps@, params: self.params@, writes_left: self.writes_left }
    }
}

impl Store {
    /// An empty store that accepts every write.
    pub fn new() -> (s: Store)
        ensures
            s@.stamps == Map::<u64, u64>::empty(),
            s@.params == Map::<u64, u64>::empty(),
            s@.writes_left is None,
    {
        Store { stamps: HashMap::new(), params: HashMap::new(), writes_left: None }
    }

    /// Sets how many more writes the store accepts (`None`: no limit).
    pub fn set_write_limit(&mut self, limit: Option<u64>)
        ensures
            final(self)@ == (StoreModel { writes_left: limit, ..old(self)@ }),
    {
        self.writes_left = limit;
    }

    pub fn writes_left(&self) -> (r: Option<u64>)
        ensures
            r == self@.writes_left,
    {
        self.writes_left
    }

    fn spend_write(&mut self) -> (ok: bool)
        ensures
            ok == (spend_write(old(self)@) is Some),
            ok ==> final(self)@ == spend_write(old(self)@)->Some_0,
            !ok ==> final(self)@ == old(self)@,
    {
        match self.writes_left {
            None => true,
            Some(n) => {
                if n == 0 {
                    false
                } else {
                    self.writes_left = Some(n - 1);
                    true
                }
            },
        }
    }

    pub fn param(&self, key: u64) -> (r: Option<u64>)
        ensures
            r == param_of(self@, key),
    {
        match self.params.get(&key) {
            Some(v) => Some(*v),
            None => None,
        }
    }

    pub fn put_param(&mut self, key: u64, value: u64) -> (r: Result<(), MigrationError>)
        ensures
            (final(self)@, r) == put_param_spec(old(self)@, key, value),
    {
        if !self.spend_write() {
            return Err(MigrationError::WriteFailure);
        }
        self.params.insert(key, value);
        Ok(())
    }

    /// The recorded version of `unit` (0 where it has no stamp yet).
    pub fn current_version(&self, unit: u64) -> (r: u64)
        ensures
            r == version_of(self@, unit),
    {
        match self.stamps.get(&unit) {
            Some(v) => *v,
            None => 0,
        }
    }

    /// Records version `v` for `unit`; refuses a version that is not above the
    /// recorded one.
    pub fn set_version(&mut self, unit: u64, v: u64) -> (r: Result<(), MigrationError>)
        ensures
            (final(self)@, r) == set_version_spec(old(self)@, unit, v),
    {
        let current = self.current_version(unit);
        if v <= current {
            return Err(MigrationError::NonMonotonicVersion { unit, current, requested: v });
        }
        if !self.spend_write() {
            return Err(MigrationError::WriteFailure);
        }
        self.stamps.insert(unit, v);
        Ok(())
    }
}

} // verus!
