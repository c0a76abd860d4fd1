//! Runs a migration set against a store: for each unit in order, applies the
//! steps from its recorded version on, then advances its stamp once.

use vstd::prelude::*;

use crate::error::{CheckPhase, MigrationError, Violation};
use crate::plan::{Action, Expect, MigrationSet, MigrationStep, UnitPlan};
use crate::store::{param_of, put_param_spec, set_version_spec, version_of, Store, StoreModel};
use crate::weight::Weight;

verus! {

pub open spec fn holds(s: StoreModel, e: Expect) -> bool {
    param_of(s, e.key) == e.value
}

proof fn lemma_actions_stop(s: StoreModel, acts: Seq<Action>, k: int, unit: u64, from: u64)
    requires
        0 <= k <= acts.len(),
        actions_spec(s, acts.take(k), unit, from).1 is Err,
    ensures
        actions_spec(s, acts, unit, from) == actions_spec(s, acts.take(k), unit, from),
    decreases acts.len(),
{
    if k == acts.len() {
        assert(acts.take(k) =~= acts);
    } else {
        assert(acts.drop_last().take(k) =~= acts.take(k));
        lemma_actions_stop(s, acts.drop_last(), k, unit, from);
    }
}

proof fn lemma_steps_stop(s: StoreModel, unit: u64, steps: Seq<MigrationStep>, k: int, checks: bool)
    requires
        0 <= k <= steps.len(),
        steps_spec(s, unit, steps.take(k), checks).1 is Err,
    ensures
        steps_spec(s, unit, steps, checks) == steps_spec(s, unit, steps.take(k), checks),
    decreases steps.len(),
{
    if k == steps.len() {
        assert(steps.take(k) =~= steps);
    } else {
        assert(steps.drop_last().take(k) =~= steps.take(k));
        lemma_steps_stop(s, unit, steps.drop_last(), k, checks);
    }
}

proof fn lemma_run_stop(s: StoreModel, units: Seq<UnitPlan>, k: int, checks: bool)
    requires
        0 <= k <= units.len(),
        run_spec(s, units.take(k), checks).1 is Err,
    ensures
        run_spec(s, units, checks) == run_spec(s, units.take(k), checks),
    decreases units.len(),
{
    if k == units.len() {
        assert(units.take(k) =~= units);
    } else {
        assert(units.drop_last().take(k) =~= units.take(k));
        lemma_run_stop(s, units.drop_last(), k, checks);
    }
}

/// The first expectation of `c` that does not hold in `s`.
pub open spec fn first_failure(s: StoreModel, c: Seq<Expect>) -> Option<Expect>
    decreases c.len(),
{
    if c.len() == 0 {
        None
    } else if !holds(s, c[0]) {
        Some(c[0])
    } else {
        first_failure(s, c.drop_first())
    }
}

/// One write of a step of `unit` from version `from`.
pub open spec fn action_spec(s: StoreModel, a: Action, unit: u64, from: u64) -> (StoreModel, Result<(), MigrationError>) {
    match a {
        Action::Put { key, value } => put_param_spec(s, key, value),
        Action::CopyValue { source, target } => match param_of(s, source) {
            None => (s, Err(MigrationError::StepFailure { unit, from, key: source })),
            Some(v) => put_param_spec(s, target, v),
        },
    }
}

/// The writes of `acts` in order, stopping at the first that fails.
pub open spec fn actions_spec(s: StoreModel, acts: Seq<Action>, unit: u64, from: u64) -> (StoreModel, Result<(), MigrationError>)
    decreases acts.len(),
{
    if acts.len() == 0 {
        (s, Ok(()))
    } else {
        let (t, r) = actions_spec(s, acts.drop_last(), unit, from);
        match r {
            Err(e) => (t, Err(e)),
            Ok(_) => action_spec(t, acts.last(), unit, from),
        }
    }
}

pub open spec fn check_spec(s: StoreModel, c: Seq<Expect>, unit: u64, from: u64, phase: CheckPhase, checks: bool) -> Result<(), MigrationError> {
    if !checks {
        Ok(())
    } else {
        match first_failure(s, c) {
            None => Ok(()),
            Some(e) => Err(MigrationError::InvariantViolation(Violation::Check { unit, from, phase, key: e.key })),
        }
    }
}

/// One step of `unit`: its pre-checks (where `checks`), its writes, then its
/// post-checks (where `checks`).
pub open spec fn step_spec(s: StoreModel, unit: u64, st: MigrationStep, checks: bool) -> (StoreModel, Result<(), MigrationError>) {
    match check_spec(s, st.pre@, unit, st.from, CheckPhase::Pre, checks) {
        Err(e) => (s, Err(e)),
        Ok(_) => {
            let (t, r) = actions_spec(s, st.actions@, unit, st.from);
            match r {
                Err(e) => (t, Err(e)),
                Ok(_) => (t, check_spec(t, st.post@, unit, st.from, CheckPhase::Post, checks)),
            }
        },
    }
}

/// The steps `steps` of `unit` in order, with the sum of their declared costs.
pub open spec fn steps_spec(s: StoreModel, unit: u64, steps: Seq<MigrationStep>, checks: bool) -> (StoreModel, Result<Weight, MigrationError>)
    decreases steps.len(),
{
    if steps.len() == 0 {
        (s, Ok(Weight::spec_zero()))
    } else {
        let (t, r) = steps_spec(s, unit, steps.drop_last(), checks);
        match r {
            Err(e) => (t, Err(e)),
            Ok(w) => {
                let (u, r2) = step_spec(t, unit, steps.last(), checks);
                match r2 {
                    Err(e) => (u, Err(e)),
                    Ok(_) => (u, Ok(w.spec_add(steps.last().cost))),
                }
            },
        }
    }
}

/// One unit: the steps selected at its recorded version, then one write of its
/// stamp; nothing where no step applies.
pub open spec fn unit_spec(s: StoreModel, plan: UnitPlan, checks: bool) -> (StoreModel, Result<Weight, MigrationError>) {
    let v = version_of(s, plan.unit);
    if !plan.applies(v) {
        (s, Ok(Weight::spec_zero()))
    } else {
        let (t, r) = steps_spec(s, plan.unit, plan.selected(v), checks);
        match r {
            Err(e) => (t, Err(e)),
            Ok(w) => {
                let (u, r2) = set_version_spec(t, plan.unit, plan.target() as u64);
                match r2 {
                    Err(e) => (u, Err(e)),
                    Ok(_) => (u, Ok(w)),
                }
            },
        }
    }
}

/// The units of `units` in order, stopping at the first failure, with the sum
/// of their costs.
pub open spec fn run_spec(s: StoreModel, units: Seq<UnitPlan>, checks: bool) -> (StoreModel, Result<Weight, MigrationError>)
    decreases units.len(),
{
    if units.len() == 0 {
        (s, Ok(Weight::spec_zero()))
    } else {
        let (t, r) = run_spec(s, units.drop_last(), checks);
        match r {
            Err(e) => (t, Err(e)),
            Ok(w) => {
                let (u, r2) = unit_spec(t, units.last(), checks);
                match r2 {
                    Err(e) => (u, Err(e)),
                    Ok(w2) => (u, Ok(w.spec_add(w2))),
                }
            },
        }
    }
}

/// The first expectation of `c` that does not hold in `store`.
pub fn find_failure(store: &Store, c: &Vec<Expect>) -> (r: Option<Expect>)
    ensures
        r == first_failure(store@, c@),
{
    let n = c.len();
    let mut i: usize = 0;
    assert(c@.subrange(0, n as int) =~= c@);
    while i < n
        invariant
            n == c@.len(),
            0 <= i <= n,
            first_failure(store@, c@) == first_failure(store@, c@.subrange(i as int, n as int)),
        decreases n - i,
    {
        let e = c[i];
        let ghost rest = c@.subrange(i as int, n as int);
        assert(rest[0] == e);
        assert(rest.drop_first() =~= c@.subrange(i + 1, n as int));
        if store.param(e.key) != e.value {
            return Some(e);
        }
        i += 1;
    }
    assert(c@.subrange(n as int, n as int).len() == 0);
    None
}

fn run_checks(store: &Store, c: &Vec<Expect>, unit: u64, from: u64, phase: CheckPhase, checks: bool) -> (r: Result<(), MigrationError>)
    ensures
        r == check_spec(store@, c@, unit, from, phase, checks),
{
    if !checks {
        return Ok(());
    }
    match find_failure(store, c) {
        None => Ok(()),
        Some(e) => Err(MigrationError::InvariantViolation(Violation::Check { unit, from, phase, key: e.key })),
    }
}

fn apply_action(store: &mut Store, a: Action, unit: u64, from: u64) -> (r: Result<(), MigrationError>)
    ensures
        (final(store)@, r) == action_spec(old(store)@, a, unit, from),
{
    match a {
        Action::Put { key, value } => store.put_param(key, value),
        Action::CopyValue { source, target } => match store.param(source) {
            None => Err(MigrationError::StepFailure { unit, from, key: source }),
            Some(v) => store.put_param(target, v),
        },
    }
}

fn apply_step(store: &mut Store, unit: u64, st: &MigrationStep, checks: bool) -> (r: Result<(), MigrationError>)
    ensures
        (final(store)@, r) == step_spec(old(store)@, unit, *st, checks),
{
    let pre = run_checks(store, &st.pre, unit, st.from, CheckPhase::Pre, checks);
    if pre.is_err() {
        return pre;
    }
    let ghost s0 = store@;
    let n = st.actions.len();
    let mut i: usize = 0;
    while i < n
        invariant
            n == st.actions@.len(),
            0 <= i <= n,
            s0 == old(store)@,
            check_spec(s0, st.pre@, unit, st.from, CheckPhase::Pre, checks) is Ok,
            (store@, Ok::<(), MigrationError>(())) == actions_spec(s0, st.actions@.take(i as int), unit, st.from),
        decreases n - i,
    {
        let a = st.actions[i];
        assert(st.actions@.take(i + 1).drop_last() =~= st.actions@.take(i as int));
        assert(st.actions@.take(i + 1).last() == a);
        let r = apply_action(store, a, unit, st.from);
        if r.is_err() {
            proof {
                lemma_actions_stop(s0, st.actions@, i + 1, unit, st.from);
            }
            return r;
        }
        i += 1;
    }
    assert(st.actions@.take(n as int) =~= st.actions@);
    run_checks(store, &st.post, unit, st.from, CheckPhase::Post, checks)
}

/// Applies the steps of `plan` that its unit's recorded version selects, then
/// records the plan's newest version, and returns the sum of the steps' costs.
pub fn run_unit(store: &mut Store, plan: &UnitPlan, checks: bool) -> (r: Result<Weight, MigrationError>)
    requires
        plan.wf(),
    ensures
        (final(store)@, r) == unit_spec(old(store)@, *plan, checks),
{
    let v = store.current_version(plan.unit);
    let n = plan.steps.len();
    if n == 0 {
        return Ok(Weight::zero());
    }
    let first = plan.steps[0].from;
    if v < first || v - first >= n as u64 {
        return Ok(Weight::zero());
    }
    let start = (v - first) as usize;
    let ghost sel = plan.selected(v);
    let ghost s0 = store@;
    assert(sel =~= plan.steps@.subrange(start as int, n as int));
    let mut acc = Weight::zero();
    let mut j: usize = start;
    while j < n
        invariant
            plan.wf(),
            n == plan.steps@.len(),
            start <= j <= n,
            s0 == old(store)@,
            v == version_of(s0, plan.unit),
            plan.applies(v),
            first == plan.first(),
            start == v - first,
            sel == plan.selected(v),
            sel == plan.steps@.subrange(start as int, n as int),
            (store@, Ok::<Weight, MigrationError>(acc)) == steps_spec(s0, plan.unit, sel.take(j - start), checks),
        decreases n - j,
    {
        let st = &plan.steps[j];
        assert(sel.take(j - start + 1).drop_last() =~= sel.take(j - start));
        assert(sel.take(j - start + 1).last() == plan.steps@[j as int]);
        let r = apply_step(store, plan.unit, st, checks);
        if let Err(e) = r {
            proof {
                lemma_steps_stop(s0, plan.unit, sel, j - start + 1, checks);
            }
            return Err(e);
        }
        acc = acc.saturating_add(st.cost);
        j += 1;
    }
    assert(sel.take(n - start) =~= sel);
    let target = first + n as u64;
    let r = store.set_version(plan.unit, target);
    if let Err(e) = r {
        return Err(e);
    }
    Ok(acc)
}

/// Runs every plan of `set` in order; where `checks`, the steps' pre- and
/// post-checks are fatal. Returns the sum of the costs of the steps applied.
pub fn run(store: &mut Store, set: &MigrationSet, checks: bool) -> (r: Result<Weight, MigrationError>)
    requires
        set.wf(),
    ensures
        (final(store)@, r) == run_spec(old(store)@, set.units@, checks),
{
    let ghost s0 = store@;
    let n = set.units.len();
    let mut acc = Weight::zero();
    let mut i: usize = 0;
    while i < n
        invariant
            set.wf(),
            n == set.units@.len(),
            0 <= i <= n,
            s0 == old(store)@,
            (store@, Ok::<Weight, MigrationError>(acc)) == run_spec(s0, set.units@.take(i as int), checks),
        decreases n - i,
    {
        assert(set.units@.take(i + 1).drop_last() =~= set.units@.take(i as int));
        assert(set.units@[i as int].wf());
        assert(set.units@.take(i + 1).last() == set.units@[i as int]);
        let r = run_unit(store, &set.units[i], checks);
        match r {
            Err(e) => {
                proof {
                    lemma_run_stop(s0, set.units@, i + 1, checks);
                }
                return Err(e);
            },
            Ok(w) => {
                acc = acc.saturating_add(w);
            },
        }
        i += 1;
    }
    assert(set.units@.take(n as int) =~= set.units@);
    Ok(acc)
}

} // verus!
