//! Migration steps, the per-unit plans that order them, and the sets that
//! compose plans of independent units in a fixed order.

use vstd::prelude::*;

use crate::weight::Weight;

verus! {

/// One write that a step's transform makes.
#[derive(Clone, Copy, Debug, PartialEq, Eq, Structural)]
pub enum Action {
    /// Write `value` under `key`.
    Put { key: u64, value: u64 },
    /// Write the value held under `source` under `target`; fails where `source`
    /// holds nothing.
    CopyValue { source: u64, target: u64 },
}

/// An invariant: the parameter `key` holds `value` (`None`: holds nothing).
#[derive(Clone, Copy, Debug, PartialEq, Eq, Structural)]
pub struct Expect {
    pub key: u64,
    pub value: Option<u64>,
}

/// A transform of one unit from version `from` to version `from + 1`, with its
/// declared cost and the checks that hold before and after it.
pub struct MigrationStep {
    pub from: u64,
    pub actions: Vec<Action>,
    pub cost: Weight,
    pub pre: Vec<Expect>,
    pub post: Vec<Expect>,
}

impl MigrationStep {
    /// A step from version `from` with the given cost, no writes and no checks.
    pub fn new(from: u64, cost: Weight) -> (r: MigrationStep)
        ensures
            r.from == from,
            r.cost == cost,
            r.actions@ == Seq::<Action>::empty(),
            r.pre@ == Seq::<Expect>::empty(),
            r.post@ == Seq::<Expect>::empty(),
    {
        MigrationStep { from, actions: Vec::new(), cost, pre: Vec::new(), post: Vec::new() }
    }

    /// The step with one more write of `value` under `key`, after the others.
    pub fn with_put(self, key: u64, value: u64) -> (r: MigrationStep)
        ensures
            r.actions@ == self.actions@.push(Action::Put { key, value }),
            r.from == self.from,
            r.cost == self.cost,
            r.pre@ == self.pre@,
            r.post@ == self.post@,
    {
        let mut r = self;
        r.actions.push(Action::Put { key, value });
        r
    }

    /// The step with one more copy of the value under `source` to `target`.
    pub fn with_copy(self, source: u64, target: u64) -> (r: MigrationStep)
        ensures
            r.actions@ == self.actions@.push(Action::CopyValue { source, target }),
            r.from == self.from,
            r.cost == self.cost,
            r.pre@ == self.pre@,
            r.post@ == self.post@,
    {
        let mut r = self;
        r.actions.push(Action::CopyValue { source, target });
        r
    }

    /// The step with one more check before its transform.
    pub fn with_pre_check(self, key: u64, value: Option<u64>) -> (r: MigrationStep)
        ensures
            r.pre@ == self.pre@.push(Expect { key, value }),
            r.from == self.from,
            r.cost == self.cost,
            r.actions@ == self.actions@,
            r.post@ == self.post@,
    {
        let mut r = self;
        r.pre.push(Expect { key, value });
        r
    }

    /// The step with one more check after its transform.
    pub fn with_post_check(self, key: u64, value: Option<u64>) -> (r: MigrationStep)
        ensures
            r.post@ == self.post@.push(Expect { key, value }),
            r.from == self.from,
            r.cost == self.cost,
            r.actions@ == self.actions@,
            r.pre@ == self.pre@,
    {
        let mut r = self;
        r.post.push(Expect { key, value });
        r
    }

    /// Whether this step transforms a unit recorded at version `current`.
    pub fn applies_at(&self, current: u64) -> (r: bool)
        ensures
            r == (current == self.from),
    {
        current == self.from
    }
}

/// The steps of one unit, in ascending version order.
pub struct UnitPlan {
    pub unit: u64,
    pub steps: Vec<MigrationStep>,
}

impl UnitPlan {
    /// The steps go up one version at a time, and the last target fits a `u64`.
    pub open spec fn wf(&self) -> bool {
        &&& forall|i: int| 0 <= i < self.steps@.len() ==> #[trigger] self.steps@[i].from == self.first() + i
        &&& self.first() + self.steps@.len() <= u64::MAX
    }

    /// The version that the first step starts from.
    pub open spec fn first(&self) -> int {
        if self.steps@.len() == 0 {
            0
        } else {
            self.steps@[0].from as int
        }
    }

    /// The newest version that the steps know.
    pub open spec fn target(&self) -> int {
        self.first() + self.steps@.len()
    }

    /// Whether some step applies to a unit recorded at version `v`.
    pub open spec fn applies(&self, v: u64) -> bool {
        self.steps@.len() > 0 && self.first() <= v < self.target()
    }

    /// The steps that a run applies to a unit recorded at version `v`: from the
    /// one that starts at `v` to the last.
    pub open spec fn selected(&self, v: u64) -> Seq<MigrationStep> {
        if self.applies(v) {
            self.steps@.subrange(v - self.first(), self.steps@.len() as int)
        } else {
            Seq::empty()
        }
    }

    /// The version of a unit recorded at `v` after a successful run.
    pub open spec fn next_version(&self, v: u64) -> u64 {
        if self.applies(v) {
            self.target() as u64
        } else {
            v
        }
    }

    /// A plan for `unit` with no steps.
    pub fn new(unit: u64) -> (r: UnitPlan)
        ensures
            r.unit == unit,
            r.steps@.len() == 0,
            r.wf(),
    {
        UnitPlan { unit, steps: Vec::new() }
    }

    /// Appends `step` where it starts at the version that the plan reaches (any
    /// version where the plan is empty) and its target fits a `u64`; returns
    /// whether it was appended.
    pub fn push_step(&mut self, step: MigrationStep) -> (ok: bool)
        requires
            old(self).wf(),
        ensures
            final(self).wf(),
            final(self).unit == old(self).unit,
            ok == (step.from < u64::MAX && (old(self).steps@.len() == 0 || step.from == old(self).target())),
            ok ==> final(self).steps@ == old(self).steps@.push(step),
            !ok ==> final(self).steps@ == old(self).steps@,
    {
        let n = self.steps.len();
        if step.from == u64::MAX {
            return false;
        }
        if n > 0 {
            let last = self.steps[n - 1].from;
            if step.from != last + 1 {
                return false;
            }
        }
        self.steps.push(step);
        assert(forall|i: int| 0 <= i < n ==> self.steps@[i] == old(self).steps@[i]);
        true
    }
}

/// Plans of distinct units, in the order in which a run takes them.
pub struct MigrationSet {
    pub units: Vec<UnitPlan>,
}

impl MigrationSet {
    pub open spec fn wf(&self) -> bool {
        &&& forall|i: int| 0 <= i < self.units@.len() ==> #[trigger] self.units@[i].wf()
        &&& forall|i: int, j: int|
            0 <= i < j < self.units@.len() ==> #[trigger] self.units@[i].unit != #[trigger] self.units@[j].unit
    }

    pub fn new() -> (r: MigrationSet)
        ensures
            r.units@.len() == 0,
            r.wf(),
    {
        MigrationSet { units: Vec::new() }
    }

    /// Whether some plan of the set is for `unit`.
    pub fn contains_unit(&self, unit: u64) -> (r: bool)
        ensures
            r == exists|i: int| 0 <= i < self.units@.len() && #[trigger] self.units@[i].unit == unit,
    {
        let mut i: usize = 0;
        while i < self.units.len()
            invariant
                0 <= i <= self.units@.len(),
                forall|j: int| 0 <= j < i ==> #[trigger] self.units@[j].unit != unit,
            decreases self.units@.len() - i,
        {
            if self.units[i].unit == unit {
                return true;
            }
            i += 1;
        }
        false
    }

    /// Appends `plan` after the others where it is well formed and no plan of
    /// the set is for its unit; returns whether it was appended.
    pub fn push_unit(&mut self, plan: UnitPlan) -> (ok: bool)
        requires
            old(self).wf(),
        ensures
            final(self).wf(),
            ok == (plan.wf() && forall|i: int| 0 <= i < old(self).units@.len() ==> #[trigger] old(self).units@[i].unit != plan.unit),
            ok ==> final(self).units@ == old(self).units@.push(plan),
            !ok ==> final(self).units@ == old(self).units@,
    {
        if !plan.is_well_formed() || self.contains_unit(plan.unit) {
            return false;
        }
        let ghost before = self.units@;
        self.units.push(plan);
        assert(forall|i: int| 0 <= i < before.len() ==> self.units@[i] == before[i]);
        true
    }
}

impl MigrationSet {
    /// Whether every plan is well formed and no two plans are for one unit.
    pub fn is_well_formed(&self) -> (r: bool)
        ensures
            r == self.wf(),
    {
        let n = self.units.len();
        let mut i: usize = 0;
        while i < n
            invariant
                n == self.units@.len(),
                0 <= i <= n,
                forall|k: int| 0 <= k < i ==> #[trigger] self.units@[k].wf(),
                forall|k: int, l: int| 0 <= k < l < i ==> #[trigger] self.units@[k].unit != #[trigger] self.units@[l].unit,
            decreases n - i,
        {
            if !self.units[i].is_well_formed() {
                return false;
            }
            let mut j: usize = 0;
            while j < i
                invariant
                    n == self.units@.len(),
                    0 <= j <= i < n,
                    forall|k: int| 0 <= k < j ==> #[trigger] self.units@[k].unit != self.units@[i as int].unit,
                decreases i - j,
            {
                if self.units[j].unit == self.units[i].unit {
                    return false;
                }
                j += 1;
            }
            assert forall|k: int, l: int| 0 <= k < l < i + 1 implies #[trigger] self.units@[k].unit != #[trigger] self.units@[l].unit by {
                if l == i {
                    assert(self.units@[k].unit != self.units@[i as int].unit);
                }
            }
            i += 1;
        }
        true
    }

    /// Whether no plan of `self` is for a unit that `other` has a plan for.
    pub open spec fn disjoint(&self, other: &MigrationSet) -> bool {
        forall|i: int, j: int|
            0 <= i < self.units@.len() && 0 <= j < other.units@.len() ==> #[trigger] self.units@[i].unit
                != #[trigger] other.units@[j].unit
    }

    /// Appends the plans of `other`, in their order, after those of the set
    /// where no unit has a plan in both; returns whether they were appended.
    pub fn append(&mut self, other: MigrationSet) -> (ok: bool)
        requires
            old(self).wf(),
            other.wf(),
        ensures
            final(self).wf(),
            ok == old(self).disjoint(&other),
            ok ==> final(self).units@ == old(self).units@ + other.units@,
            !ok ==> final(self).units@ == old(self).units@,
    {
        let m = other.units.len();
        let mut j: usize = 0;
        while j < m
            invariant
                m == other.units@.len(),
                0 <= j <= m,
                self.wf(),
                self.units@ == old(self).units@,
                forall|i: int, k: int|
                    0 <= i < self.units@.len() && 0 <= k < j ==> #[trigger] self.units@[i].unit
                        != #[trigger] other.units@[k].unit,
            decreases m - j,
        {
            if self.contains_unit(other.units[j].unit) {
                return false;
            }
            j += 1;
        }
        let ghost before = self.units@;
        let mut rest = other.units;
        self.units.append(&mut rest);
        assert forall|i: int, l: int| 0 <= i < l < self.units@.len() implies #[trigger] self.units@[i].unit != #[trigger] self.units@[l].unit by {
            if l < before.len() {
                assert(self.units@[i] == before[i] && self.units@[l] == before[l]);
            } else if i < before.len() {
                assert(self.units@[i] == before[i] && self.units@[l] == other.units@[l - before.len()]);
            } else {
                assert(self.units@[i] == other.units@[i - before.len()] && self.units@[l] == other.units@[l - before.len()]);
            }
        }
        assert forall|i: int| 0 <= i < self.units@.len() implies #[trigger] self.units@[i].wf() by {
            if i < before.len() {
                assert(self.units@[i] == before[i]);
            } else {
                assert(self.units@[i] == other.units@[i - before.len()]);
            }
        }
        true
    }
}

impl UnitPlan {
    /// Whether the plan's steps go up one version at a time with a target that
    /// fits a `u64`.
    pub fn is_well_formed(&self) -> (r: bool)
        ensures
            r == self.wf(),
    {
        let n = self.steps.len();
        if n == 0 {
            return true;
        }
        let first = self.steps[0].from;
        let mut i: usize = 0;
        while i < n
            invariant
                n == self.steps@.len(),
                first == self.first(),
                0 <= i <= n,
                forall|j: int| 0 <= j < i ==> #[trigger] self.steps@[j].from == first + j,
            decreases n - i,
        {
            if self.steps[i].from as u128 != first as u128 + i as u128 {
                return false;
            }
            i += 1;
        }
        (first as u128 + n as u128) <= u64::MAX as u128
    }
}

} // verus!
