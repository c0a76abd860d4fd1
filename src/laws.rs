//! What holds of every run: stamps never go down, a successful run brings each
//! unit exactly to the newest version its plan knows, a second run does nothing,
//! and a failed check stops the run at its unit.

use vstd::prelude::*;

use crate::error::{MigrationError, Violation};
use crate::plan::{Action, MigrationSet, MigrationStep, UnitPlan};
use crate::retry::cost_of;
use crate::runner::{action_spec, actions_spec, run_spec, step_spec, steps_spec, unit_spec};
use crate::store::set_version_spec;
use crate::store::{version_of, StoreModel};
use crate::weight::Weight;

verus! {

proof fn lemma_actions_keep_stamps(s: StoreModel, acts: Seq<Action>, unit: u64, from: u64)
    ensures
        actions_spec(s, acts, unit, from).0.stamps == s.stamps,
        actions_spec(s, acts, unit, from).1 is Err ==> !(actions_spec(s, acts, unit, from).1->Err_0 is InvariantViolation),
    decreases acts.len(),
{
    if acts.len() > 0 {
        lemma_actions_keep_stamps(s, acts.drop_last(), unit, from);
    }
}

/// Every error of a step of `unit` that names a check names `unit`.
pub open spec fn names_unit(r: Result<(), MigrationError>, unit: u64) -> bool {
    match r {
        Err(MigrationError::InvariantViolation(v)) => v is Check && v->Check_unit == unit,
        _ => true,
    }
}

proof fn lemma_steps_keep_stamps(s: StoreModel, unit: u64, steps: Seq<MigrationStep>, checks: bool)
    ensures
        steps_spec(s, unit, steps, checks).0.stamps == s.stamps,
        steps_spec(s, unit, steps, checks).1 is Err ==> names_unit(Err(steps_spec(s, unit, steps, checks).1->Err_0), unit),
    decreases steps.len(),
{
    if steps.len() > 0 {
        lemma_steps_keep_stamps(s, unit, steps.drop_last(), checks);
        let t = steps_spec(s, unit, steps.drop_last(), checks).0;
        lemma_actions_keep_stamps(t, steps.last().actions@, unit, steps.last().from);
        let st = steps.last();
        assert(step_spec(t, unit, st, checks).0.stamps == t.stamps);
    }
}

proof fn lemma_unit_versions(s: StoreModel, plan: UnitPlan, checks: bool)
    requires
        plan.wf(),
    ensures
        ({
            let (t, r) = unit_spec(s, plan, checks);
            &&& forall|u: u64| u != plan.unit ==> #[trigger] version_of(t, u) == version_of(s, u)
            &&& r is Ok ==> version_of(t, plan.unit) == plan.next_version(version_of(s, plan.unit))
            &&& r is Err ==> version_of(t, plan.unit) == version_of(s, plan.unit)
            &&& r is Err ==> names_unit(Err(r->Err_0), plan.unit)
            &&& version_of(t, plan.unit) >= version_of(s, plan.unit)
        }),
{
    let v = version_of(s, plan.unit);
    if plan.applies(v) {
        lemma_steps_keep_stamps(s, plan.unit, plan.selected(v), checks);
        let t = steps_spec(s, plan.unit, plan.selected(v), checks).0;
        assert(version_of(t, plan.unit) == v);
        assert forall|u: u64| #[trigger] version_of(t, u) == version_of(s, u) by {}
    }
}

/// Runs no unit changes the stamp of a unit that `units` has no plan for.
proof fn lemma_run_others_unchanged(s: StoreModel, units: Seq<UnitPlan>, checks: bool, u: u64)
    requires
        forall|i: int| 0 <= i < units.len() ==> #[trigger] units[i].wf(),
        forall|i: int| 0 <= i < units.len() ==> #[trigger] units[i].unit != u,
    ensures
        version_of(run_spec(s, units, checks).0, u) == version_of(s, u),
    decreases units.len(),
{
    if units.len() > 0 {
        let pre = units.drop_last();
        assert forall|i: int| 0 <= i < pre.len() implies #[trigger] pre[i].wf() && pre[i].unit != u by {
            assert(pre[i] == units[i]);
        }
        lemma_run_others_unchanged(s, pre, checks, u);
        let t = run_spec(s, pre, checks).0;
        assert(units[units.len() - 1].wf());
        lemma_unit_versions(t, units.last(), checks);
        assert(units[units.len() - 1].unit != u);
    }
}

/// Monotonicity: whatever its outcome, a run leaves no unit's recorded version
/// below the one it had before.
pub proof fn lemma_versions_never_decrease(s: StoreModel, set: MigrationSet, checks: bool)
    requires
        set.wf(),
    ensures
        forall|u: u64| #[trigger] version_of(run_spec(s, set.units@, checks).0, u) >= version_of(s, u),
{
    lemma_run_never_lowers(s, set.units@, checks);
}

proof fn lemma_run_never_lowers(s: StoreModel, units: Seq<UnitPlan>, checks: bool)
    requires
        forall|i: int| 0 <= i < units.len() ==> #[trigger] units[i].wf(),
    ensures
        forall|u: u64| #[trigger] version_of(run_spec(s, units, checks).0, u) >= version_of(s, u),
    decreases units.len(),
{
    if units.len() > 0 {
        let pre = units.drop_last();
        assert forall|i: int| 0 <= i < pre.len() implies #[trigger] pre[i].wf() by {
            assert(pre[i] == units[i]);
        }
        lemma_run_never_lowers(s, pre, checks);
        let t = run_spec(s, pre, checks).0;
        assert(units[units.len() - 1].wf());
        lemma_unit_versions(t, units.last(), checks);
        let f = run_spec(s, units, checks).0;
        assert forall|u: u64| #[trigger] version_of(f, u) >= version_of(s, u) by {
            assert(version_of(t, u) >= version_of(s, u));
        }
    }
}

proof fn lemma_run_exact(s: StoreModel, units: Seq<UnitPlan>, checks: bool)
    requires
        forall|i: int| 0 <= i < units.len() ==> #[trigger] units[i].wf(),
        forall|i: int, j: int| 0 <= i < j < units.len() ==> #[trigger] units[i].unit != #[trigger] units[j].unit,
        run_spec(s, units, checks).1 is Ok,
    ensures
        forall|i: int|
            0 <= i < units.len() ==> version_of(run_spec(s, units, checks).0, #[trigger] units[i].unit)
                == units[i].next_version(version_of(s, units[i].unit)),
    decreases units.len(),
{
    if units.len() > 0 {
        let n = units.len() - 1;
        let pre = units.drop_last();
        assert forall|i: int| 0 <= i < pre.len() implies #[trigger] pre[i].wf() by {
            assert(pre[i] == units[i]);
        }
        assert forall|i: int, j: int| 0 <= i < j < pre.len() implies #[trigger] pre[i].unit != #[trigger] pre[j].unit by {
            assert(pre[i] == units[i] && pre[j] == units[j]);
        }
        lemma_run_exact(s, pre, checks);
        let t = run_spec(s, pre, checks).0;
        let last = units[n];
        assert(last.wf());
        assert forall|i: int| 0 <= i < pre.len() implies #[trigger] pre[i].unit != last.unit by {
            assert(pre[i] == units[i]);
        }
        lemma_run_others_unchanged(s, pre, checks, last.unit);
        lemma_unit_versions(t, last, checks);
        let f = run_spec(s, units, checks).0;
        assert forall|i: int| 0 <= i < units.len() implies version_of(f, #[trigger] units[i].unit)
            == units[i].next_version(version_of(s, units[i].unit)) by {
            if i < n {
                assert(pre[i] == units[i]);
                assert(units[i].unit != last.unit);
            }
        }
    }
}

/// A successful run brings each unit of the set to the version its plan reaches
/// from the recorded one (the newest version that the plan knows, where a step
/// applies; else the recorded version), and leaves every other unit's stamp.
pub proof fn lemma_run_reaches_next_versions(s: StoreModel, set: MigrationSet, checks: bool)
    requires
        set.wf(),
        run_spec(s, set.units@, checks).1 is Ok,
    ensures
        forall|i: int|
            0 <= i < set.units@.len() ==> version_of(run_spec(s, set.units@, checks).0, #[trigger] set.units@[i].unit)
                == set.units@[i].next_version(version_of(s, set.units@[i].unit)),
        forall|u: u64|
            (forall|i: int| 0 <= i < set.units@.len() ==> #[trigger] set.units@[i].unit != u) ==> #[trigger] version_of(
                run_spec(s, set.units@, checks).0,
                u,
            ) == version_of(s, u),
{
    lemma_run_exact(s, set.units@, checks);
    assert forall|u: u64|
        (forall|i: int| 0 <= i < set.units@.len() ==> #[trigger] set.units@[i].unit != u) implies #[trigger] version_of(
            run_spec(s, set.units@, checks).0,
            u,
        ) == version_of(s, u) by {
        lemma_run_others_unchanged(s, set.units@, checks, u);
    }
}

proof fn lemma_check_failure_stops(s: StoreModel, units: Seq<UnitPlan>, v: Violation)
    requires
        forall|i: int| 0 <= i < units.len() ==> #[trigger] units[i].wf(),
        forall|i: int, j: int| 0 <= i < j < units.len() ==> #[trigger] units[i].unit != #[trigger] units[j].unit,
        v is Check,
        run_spec(s, units, true).1 == Err::<Weight, MigrationError>(MigrationError::InvariantViolation(v)),
    ensures
        exists|k: int|
            0 <= k < units.len() && (#[trigger] units[k]).unit == v->Check_unit && version_of(
                run_spec(s, units, true).0,
                units[k].unit,
            ) == version_of(s, units[k].unit) && forall|j: int|
                k < j < units.len() ==> version_of(run_spec(s, units, true).0, #[trigger] units[j].unit) == version_of(
                    s,
                    units[j].unit,
                ),
    decreases units.len(),
{
    let n = units.len() - 1;
    let pre = units.drop_last();
    let last = units[n];
    assert(last.wf());
    assert forall|i: int| 0 <= i < pre.len() implies #[trigger] pre[i].wf() && pre[i].unit != last.unit by {
        assert(pre[i] == units[i]);
    }
    assert forall|i: int, j: int| 0 <= i < j < pre.len() implies #[trigger] pre[i].unit != #[trigger] pre[j].unit by {
        assert(pre[i] == units[i] && pre[j] == units[j]);
    }
    lemma_run_others_unchanged(s, pre, true, last.unit);
    let f = run_spec(s, units, true).0;
    if run_spec(s, pre, true).1 is Err {
        lemma_check_failure_stops(s, pre, v);
        let k = choose|k: int|
            0 <= k < pre.len() && (#[trigger] pre[k]).unit == v->Check_unit && version_of(
                run_spec(s, pre, true).0,
                pre[k].unit,
            ) == version_of(s, pre[k].unit) && forall|j: int|
                k < j < pre.len() ==> version_of(run_spec(s, pre, true).0, #[trigger] pre[j].unit) == version_of(
                    s,
                    pre[j].unit,
                );
        assert(units[k] == pre[k]);
        assert forall|j: int| k < j < units.len() implies version_of(f, #[trigger] units[j].unit) == version_of(
            s,
            units[j].unit,
        ) by {
            if j < n {
                assert(units[j] == pre[j]);
            }
        }
    } else {
        let t = run_spec(s, pre, true).0;
        lemma_unit_versions(t, last, true);
        assert(units[n] == last);
    }
}

/// A failed check stops a run with every check fatal at the unit of the failed
/// check: the error names a unit of the set, that unit keeps its recorded
/// version, and so does every unit after it.
pub proof fn lemma_check_failure_stops_at_its_unit(s: StoreModel, set: MigrationSet, v: Violation)
    requires
        set.wf(),
        v is Check,
        run_spec(s, set.units@, true).1 == Err::<Weight, MigrationError>(MigrationError::InvariantViolation(v)),
    ensures
        exists|k: int|
            0 <= k < set.units@.len() && (#[trigger] set.units@[k]).unit == v->Check_unit && version_of(
                run_spec(s, set.units@, true).0,
                set.units@[k].unit,
            ) == version_of(s, set.units@[k].unit) && forall|j: int|
                k < j < set.units@.len() ==> version_of(run_spec(s, set.units@, true).0, #[trigger] set.units@[j].unit)
                    == version_of(s, set.units@[j].unit),
{
    lemma_check_failure_stops(s, set.units@, v);
}

proof fn lemma_prefix_wf(units: Seq<UnitPlan>)
    requires
        forall|i: int| 0 <= i < units.len() ==> #[trigger] units[i].wf(),
        forall|i: int, j: int| 0 <= i < j < units.len() ==> #[trigger] units[i].unit != #[trigger] units[j].unit,
        units.len() > 0,
    ensures
        forall|i: int| 0 <= i < units.drop_last().len() ==> #[trigger] units.drop_last()[i].wf(),
        forall|i: int, j: int|
            0 <= i < j < units.drop_last().len() ==> #[trigger] units.drop_last()[i].unit != #[trigger] units.drop_last()[j].unit,
        forall|i: int| 0 <= i < units.drop_last().len() ==> #[trigger] units.drop_last()[i].unit != units.last().unit,
        units.last().wf(),
{
    let pre = units.drop_last();
    assert(units[units.len() - 1].wf());
    assert forall|i: int| 0 <= i < pre.len() implies #[trigger] pre[i].wf() && pre[i].unit != units.last().unit by {
        assert(pre[i] == units[i]);
    }
    assert forall|i: int, j: int| 0 <= i < j < pre.len() implies #[trigger] pre[i].unit != #[trigger] pre[j].unit by {
        assert(pre[i] == units[i] && pre[j] == units[j]);
    }
}

proof fn lemma_run_keeps_settled_unit(s: StoreModel, units: Seq<UnitPlan>, checks: bool, k: int)
    requires
        forall|i: int| 0 <= i < units.len() ==> #[trigger] units[i].wf(),
        forall|i: int, j: int| 0 <= i < j < units.len() ==> #[trigger] units[i].unit != #[trigger] units[j].unit,
        0 <= k < units.len(),
        !units[k].applies(version_of(s, units[k].unit)),
    ensures
        version_of(run_spec(s, units, checks).0, units[k].unit) == version_of(s, units[k].unit),
    decreases units.len(),
{
    let n = units.len() - 1;
    let pre = units.drop_last();
    lemma_prefix_wf(units);
    let t = run_spec(s, pre, checks).0;
    if k == n {
        lemma_run_others_unchanged(s, pre, checks, units[k].unit);
    } else {
        assert(pre[k] == units[k]);
        lemma_run_keeps_settled_unit(s, pre, checks, k);
        lemma_unit_versions(t, units.last(), checks);
    }
}

/// Downgrade safety in any set: a unit recorded at or beyond the newest version
/// its plan knows keeps its recorded version, whatever the run's outcome.
pub proof fn lemma_ahead_unit_keeps_version(s: StoreModel, set: MigrationSet, checks: bool, k: int)
    requires
        set.wf(),
        0 <= k < set.units@.len(),
        version_of(s, set.units@[k].unit) >= set.units@[k].target(),
    ensures
        version_of(run_spec(s, set.units@, checks).0, set.units@[k].unit) == version_of(s, set.units@[k].unit),
{
    lemma_run_keeps_settled_unit(s, set.units@, checks, k);
}

proof fn lemma_run_one_step_of_versions(s: StoreModel, units: Seq<UnitPlan>, checks: bool)
    requires
        forall|i: int| 0 <= i < units.len() ==> #[trigger] units[i].wf(),
        forall|i: int, j: int| 0 <= i < j < units.len() ==> #[trigger] units[i].unit != #[trigger] units[j].unit,
    ensures
        forall|i: int|
            0 <= i < units.len() ==> version_of(run_spec(s, units, checks).0, #[trigger] units[i].unit) == version_of(s, units[i].unit)
                || version_of(run_spec(s, units, checks).0, units[i].unit) == units[i].next_version(version_of(s, units[i].unit)),
    decreases units.len(),
{
    if units.len() > 0 {
        let n = units.len() - 1;
        let pre = units.drop_last();
        lemma_prefix_wf(units);
        lemma_run_one_step_of_versions(s, pre, checks);
        lemma_run_others_unchanged(s, pre, checks, units.last().unit);
        let t = run_spec(s, pre, checks).0;
        lemma_unit_versions(t, units.last(), checks);
        let f = run_spec(s, units, checks).0;
        assert forall|i: int| 0 <= i < units.len() implies version_of(f, #[trigger] units[i].unit) == version_of(s, units[i].unit)
            || version_of(f, units[i].unit) == units[i].next_version(version_of(s, units[i].unit)) by {
            if i < n {
                assert(pre[i] == units[i]);
            }
        }
    }
}

/// Monotonicity over any sequence of runs of one set, each on the store the one
/// before left, whatever their outcomes: no unit's version ever goes down, and
/// after a run that succeeded each unit is at the version its plan reaches from
/// the version it had before the first run.
pub proof fn lemma_runs_in_sequence(stores: Seq<StoreModel>, set: MigrationSet, modes: Seq<bool>)
    requires
        set.wf(),
        stores.len() == modes.len() + 1,
        forall|i: int| 0 <= i < modes.len() ==> #[trigger] run_spec(stores[i], set.units@, modes[i]).0 == stores[i + 1],
    ensures
        forall|i: int, l: int, u: u64|
            0 <= i <= l < stores.len() ==> #[trigger] version_of(stores[l], u) >= #[trigger] version_of(stores[i], u),
        modes.len() > 0 && run_spec(stores[modes.len() - 1], set.units@, modes[modes.len() - 1]).1 is Ok ==> forall|j: int|
            0 <= j < set.units@.len() ==> version_of(stores.last(), #[trigger] set.units@[j].unit)
                == set.units@[j].next_version(version_of(stores[0], set.units@[j].unit)),
    decreases modes.len(),
{
    let units = set.units@;
    if modes.len() > 0 {
        let m = modes.len() - 1;
        let pre_stores = stores.drop_last();
        let pre_modes = modes.drop_last();
        assert forall|i: int| 0 <= i < pre_modes.len() implies #[trigger] run_spec(pre_stores[i], units, pre_modes[i]).0
            == pre_stores[i + 1] by {
            assert(run_spec(stores[i], units, modes[i]).0 == stores[i + 1]);
        }
        lemma_runs_in_sequence(pre_stores, set, pre_modes);
        lemma_versions_never_decrease(stores[m], set, modes[m]);
        assert(run_spec(stores[m], units, modes[m]).0 == stores[m + 1]);
        assert forall|i: int, l: int, u: u64| 0 <= i <= l < stores.len() implies #[trigger] version_of(stores[l], u)
            >= #[trigger] version_of(stores[i], u) by {
            if l == m + 1 && i <= m {
                assert(pre_stores[i] == stores[i] && pre_stores[m] == stores[m]);
                assert(version_of(stores[m + 1], u) >= version_of(stores[m], u));
            } else if l <= m {
                assert(pre_stores[i] == stores[i] && pre_stores[l] == stores[l]);
            }
        }
        // Every unit is at its version before the first run or at the version its plan reaches.
        lemma_versions_stay_reachable(stores, set, modes);
        if run_spec(stores[m], units, modes[m]).1 is Ok {
            lemma_run_exact(stores[m], units, modes[m]);
            assert forall|j: int| 0 <= j < units.len() implies version_of(stores.last(), #[trigger] units[j].unit)
                == units[j].next_version(version_of(stores[0], units[j].unit)) by {
                assert(units[j].wf());
                assert(stores.last() == stores[m + 1]);
            }
        }
    }
}

proof fn lemma_versions_stay_reachable(stores: Seq<StoreModel>, set: MigrationSet, modes: Seq<bool>)
    requires
        set.wf(),
        stores.len() == modes.len() + 1,
        forall|i: int| 0 <= i < modes.len() ==> #[trigger] run_spec(stores[i], set.units@, modes[i]).0 == stores[i + 1],
    ensures
        forall|i: int, j: int|
            0 <= i < stores.len() && 0 <= j < set.units@.len() ==> version_of(#[trigger] stores[i], #[trigger] set.units@[j].unit)
                == version_of(stores[0], set.units@[j].unit) || version_of(stores[i], set.units@[j].unit)
                == set.units@[j].next_version(version_of(stores[0], set.units@[j].unit)),
    decreases modes.len(),
{
    let units = set.units@;
    if modes.len() > 0 {
        let m = modes.len() - 1;
        let pre_stores = stores.drop_last();
        let pre_modes = modes.drop_last();
        assert forall|i: int| 0 <= i < pre_modes.len() implies #[trigger] run_spec(pre_stores[i], units, pre_modes[i]).0
            == pre_stores[i + 1] by {
            assert(run_spec(stores[i], units, modes[i]).0 == stores[i + 1]);
        }
        lemma_versions_stay_reachable(pre_stores, set, pre_modes);
        lemma_run_one_step_of_versions(stores[m], units, modes[m]);
        assert(run_spec(stores[m], units, modes[m]).0 == stores[m + 1]);
        assert forall|i: int, j: int| 0 <= i < stores.len() && 0 <= j < units.len() implies version_of(#[trigger] stores[i], #[trigger] units[j].unit)
            == version_of(stores[0], units[j].unit) || version_of(stores[i], units[j].unit)
            == units[j].next_version(version_of(stores[0], units[j].unit)) by {
            assert(units[j].wf());
            assert(pre_stores[0] == stores[0]);
            if i <= m {
                assert(pre_stores[i] == stores[i]);
            } else {
                assert(pre_stores[m] == stores[m]);
                assert(version_of(stores[m], units[j].unit) == version_of(stores[0], units[j].unit) || version_of(stores[m], units[j].unit)
                    == units[j].next_version(version_of(stores[0], units[j].unit)));
            }
        }
    }
}

proof fn lemma_steps_cost(s: StoreModel, unit: u64, steps: Seq<MigrationStep>, checks: bool)
    ensures
        steps_spec(s, unit, steps, checks).1 is Ok ==> steps_spec(s, unit, steps, checks).1->Ok_0 == cost_of(steps),
    decreases steps.len(),
{
    if steps.len() > 0 {
        lemma_steps_cost(s, unit, steps.drop_last(), checks);
    }
}

/// Exactly-once application, for any transforms, checks and store: where a run
/// of a unit recorded at version 0 whose plan holds the steps from 0 to 1 and
/// from 1 to 2 succeeds, it applied the first step once, then the second once,
/// then wrote the stamp 2 once, and returned the sum of the two declared costs.
pub proof fn lemma_two_steps_applied_once(s: StoreModel, plan: UnitPlan, checks: bool)
    requires
        plan.wf(),
        plan.steps@.len() == 2,
        plan.steps@[0].from == 0,
        version_of(s, plan.unit) == 0,
        run_spec(s, seq![plan], checks).1 is Ok,
    ensures
        ({
            let (t, r) = run_spec(s, seq![plan], checks);
            let after_first = step_spec(s, plan.unit, plan.steps@[0], checks).0;
            let after_second = step_spec(after_first, plan.unit, plan.steps@[1], checks).0;
            &&& r == Ok::<Weight, MigrationError>(plan.steps@[0].cost.spec_add(plan.steps@[1].cost))
            &&& t == set_version_spec(after_second, plan.unit, 2).0
            &&& version_of(t, plan.unit) == 2
        }),
{
    let one = seq![plan];
    assert(one.drop_last() =~= Seq::<UnitPlan>::empty());
    assert(one.last() == plan);
    assert(run_spec(s, one.drop_last(), checks) == (s, Ok::<Weight, MigrationError>(Weight::spec_zero())));
    assert(plan.applies(0));
    let sel = plan.selected(0);
    assert(sel =~= plan.steps@);
    let first = sel.drop_last();
    assert(first.drop_last() =~= Seq::<MigrationStep>::empty());
    assert(first.last() == sel[0]);
    assert(steps_spec(s, plan.unit, first.drop_last(), checks) == (s, Ok::<Weight, MigrationError>(Weight::spec_zero())));
    lemma_steps_keep_stamps(s, plan.unit, sel, checks);
    lemma_steps_cost(s, plan.unit, sel, checks);
    assert(cost_of(first.drop_last()) == Weight::spec_zero());
    assert(cost_of(first) == sel[0].cost);
    let a1 = step_spec(s, plan.unit, sel[0], checks);
    assert(steps_spec(s, plan.unit, first, checks).0 == a1.0);
    assert(unit_spec(s, plan, checks).1 is Ok);
    assert(steps_spec(s, plan.unit, sel, checks).1 is Ok);
    assert(steps_spec(s, plan.unit, first, checks).1 is Ok);
    assert(sel.last() == plan.steps@[1]);
    assert(steps_spec(s, plan.unit, sel, checks).0 == step_spec(a1.0, plan.unit, plan.steps@[1], checks).0);
}

/// No step of any unit applies at its recorded version.
pub open spec fn settled(s: StoreModel, units: Seq<UnitPlan>) -> bool {
    forall|i: int| 0 <= i < units.len() ==> !(#[trigger] units[i]).applies(version_of(s, units[i].unit))
}

proof fn lemma_settled_run_is_noop(s: StoreModel, units: Seq<UnitPlan>, checks: bool)
    requires
        settled(s, units),
    ensures
        run_spec(s, units, checks) == (s, Ok::<Weight, MigrationError>(Weight::spec_zero())),
    decreases units.len(),
{
    if units.len() > 0 {
        let pre = units.drop_last();
        assert forall|i: int| 0 <= i < pre.len() implies !(#[trigger] pre[i]).applies(version_of(s, pre[i].unit)) by {
            assert(pre[i] == units[i]);
        }
        lemma_settled_run_is_noop(s, pre, checks);
        assert(!units[units.len() - 1].applies(version_of(s, units[units.len() - 1].unit)));
    }
}

/// Idempotence: after a successful run, a second run of the same set (in either
/// mode) changes nothing and costs nothing.
pub proof fn lemma_second_run_is_noop(s: StoreModel, set: MigrationSet, checks: bool, checks_again: bool)
    requires
        set.wf(),
        run_spec(s, set.units@, checks).1 is Ok,
    ensures
        ({
            let t = run_spec(s, set.units@, checks).0;
            run_spec(t, set.units@, checks_again) == (t, Ok::<Weight, MigrationError>(Weight::spec_zero()))
        }),
{
    let t = run_spec(s, set.units@, checks).0;
    lemma_run_exact(s, set.units@, checks);
    assert forall|i: int| 0 <= i < set.units@.len() implies !(#[trigger] set.units@[i]).applies(
        version_of(t, set.units@[i].unit),
    ) by {
        assert(set.units@[i].wf());
        assert(version_of(t, set.units@[i].unit) == set.units@[i].next_version(version_of(s, set.units@[i].unit)));
    }
    lemma_settled_run_is_noop(t, set.units@, checks_again);
}

/// Downgrade safety: a unit recorded at or beyond the newest version its plan
/// knows is left as it is, at no cost and without error.
pub proof fn lemma_ahead_of_known_steps(s: StoreModel, plan: UnitPlan, checks: bool)
    requires
        plan.wf(),
        version_of(s, plan.unit) >= plan.target(),
    ensures
        run_spec(s, seq![plan], checks) == (s, Ok::<Weight, MigrationError>(Weight::spec_zero())),
{
    assert(seq![plan][0] == plan);
    lemma_settled_run_is_noop(s, seq![plan], checks);
}

} // verus!
