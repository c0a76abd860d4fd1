use runtime_migration::error::{CheckPhase, MigrationError, Violation};
use runtime_migration::harness::{Migration, NominationPoolsMigrationV4OldPallet, SetStorageVersions};
use runtime_migration::plan::{Expect, MigrationSet, MigrationStep, UnitPlan};
use runtime_migration::runner::{find_failure, run, run_unit};
use runtime_migration::store::Store;
use runtime_migration::weight::{Perbill, RuntimeDbWeight, Weight};

const POOLS: u64 = 1;
const BOUNTIES: u64 = 2;
const PARAM_P: u64 = 100;
const PARAM_Q: u64 = 101;

fn plan_of(unit: u64, steps: Vec<MigrationStep>) -> UnitPlan {
    let mut plan = UnitPlan::new(unit);
    for step in steps {
        assert!(plan.push_step(step));
    }
    plan
}

fn set_of(plans: Vec<UnitPlan>) -> MigrationSet {
    let mut set = MigrationSet::new();
    for plan in plans {
        assert!(set.push_unit(plan));
    }
    set
}

fn two_step_set() -> MigrationSet {
    let s0 = MigrationStep::new(0, Weight::from_parts(100, 1)).with_put(PARAM_P, 10);
    let s1 = MigrationStep::new(1, Weight::from_parts(250, 2)).with_put(PARAM_Q, 20);
    set_of(vec![plan_of(POOLS, vec![s0, s1])])
}

#[test]
fn pools_example_single_step() {
    let step = MigrationStep::new(0, Weight::from_parts(500, 7)).with_put(PARAM_P, 10);
    let migration = Migration::new(
        set_of(vec![plan_of(POOLS, vec![step])]),
        vec![Expect { key: PARAM_P, value: Some(10) }],
    );
    let mut store = Store::new();
    assert_eq!(store.current_version(POOLS), 0);
    let snapshot = migration.pre_upgrade(&store);
    assert_eq!(snapshot.versions, vec![0]);
    assert_eq!(migration.on_runtime_upgrade(&mut store), Ok(Weight::from_parts(500, 7)));
    assert_eq!(store.current_version(POOLS), 1);
    assert_eq!(store.param(PARAM_P), Some(10));
    assert_eq!(migration.post_upgrade(&store, &snapshot), Ok(()));
}

#[test]
fn two_steps_applied_once_in_order() {
    let set = two_step_set();
    let mut store = Store::new();
    assert_eq!(run(&mut store, &set, false), Ok(Weight::from_parts(350, 3)));
    assert_eq!(store.current_version(POOLS), 2);
    assert_eq!(store.param(PARAM_P), Some(10));
    assert_eq!(store.param(PARAM_Q), Some(20));
}

#[test]
fn second_run_costs_nothing() {
    let set = two_step_set();
    let mut store = Store::new();
    assert!(run(&mut store, &set, false).is_ok());
    assert_eq!(run(&mut store, &set, false), Ok(Weight::zero()));
    assert_eq!(run(&mut store, &set, true), Ok(Weight::zero()));
    assert_eq!(store.current_version(POOLS), 2);
}

#[test]
fn interrupted_run_is_retried_from_the_same_version() {
    let set = two_step_set();
    let mut store = Store::new();
    // Two writes for the steps' parameters, none left for the stamp.
    store.set_write_limit(Some(2));
    assert_eq!(run(&mut store, &set, false), Err(MigrationError::WriteFailure));
    assert_eq!(store.current_version(POOLS), 0);
    assert_eq!(store.param(PARAM_P), Some(10));
    store.set_write_limit(None);
    assert_eq!(run(&mut store, &set, false), Ok(Weight::from_parts(350, 3)));
    assert_eq!(store.current_version(POOLS), 2);
    assert_eq!(store.param(PARAM_P), Some(10));
    assert_eq!(store.param(PARAM_Q), Some(20));
}

#[test]
fn interrupted_inside_a_step() {
    let set = two_step_set();
    let mut store = Store::new();
    store.set_write_limit(Some(1));
    assert_eq!(run(&mut store, &set, false), Err(MigrationError::WriteFailure));
    assert_eq!(store.param(PARAM_P), Some(10));
    assert_eq!(store.param(PARAM_Q), None);
    assert_eq!(store.writes_left(), Some(0));
    store.set_write_limit(None);
    assert_eq!(run(&mut store, &set, false), Ok(Weight::from_parts(350, 3)));
    assert_eq!(store.current_version(POOLS), 2);
}

#[test]
fn unit_ahead_of_known_steps_is_left_alone() {
    let steps = vec![
        MigrationStep::new(0, Weight::from_parts(1, 1)).with_put(PARAM_P, 1),
        MigrationStep::new(1, Weight::from_parts(1, 1)).with_put(PARAM_P, 2),
        MigrationStep::new(2, Weight::from_parts(1, 1)).with_put(PARAM_P, 3),
    ];
    let set = set_of(vec![plan_of(POOLS, steps)]);
    let mut store = Store::new();
    assert_eq!(store.set_version(POOLS, 5), Ok(()));
    assert_eq!(run(&mut store, &set, false), Ok(Weight::zero()));
    assert_eq!(store.current_version(POOLS), 5);
    assert_eq!(store.param(PARAM_P), None);
}

#[test]
fn failed_post_check_stops_the_verification_run() {
    let first = MigrationStep::new(0, Weight::from_parts(3, 0)).with_put(PARAM_Q, 1);
    let failing = MigrationStep::new(0, Weight::from_parts(5, 0))
        .with_put(PARAM_P, 10)
        .with_post_check(PARAM_P, Some(11));
    let later = MigrationStep::new(0, Weight::from_parts(7, 0)).with_put(300, 1);
    let migration = Migration::new(
        set_of(vec![
            plan_of(7, vec![first]),
            plan_of(POOLS, vec![failing]),
            plan_of(BOUNTIES, vec![later]),
        ]),
        vec![],
    );
    let mut store = Store::new();
    assert_eq!(
        migration.try_on_runtime_upgrade(&mut store),
        Err(MigrationError::InvariantViolation(Violation::Check {
            unit: POOLS,
            from: 0,
            phase: CheckPhase::Post,
            key: PARAM_P,
        }))
    );
    assert_eq!(store.current_version(7), 1);
    assert_eq!(store.current_version(POOLS), 0);
    assert_eq!(store.current_version(BOUNTIES), 0);
    assert_eq!(store.param(300), None);
}

#[test]
fn checks_are_not_fatal_in_production() {
    let step = MigrationStep::new(0, Weight::from_parts(5, 0))
        .with_pre_check(PARAM_P, Some(1))
        .with_put(PARAM_P, 10);
    let migration = Migration::new(set_of(vec![plan_of(POOLS, vec![step])]), vec![]);
    let mut verifying = Store::new();
    assert_eq!(
        migration.try_on_runtime_upgrade(&mut verifying),
        Err(MigrationError::InvariantViolation(Violation::Check {
            unit: POOLS,
            from: 0,
            phase: CheckPhase::Pre,
            key: PARAM_P,
        }))
    );
    assert_eq!(verifying.param(PARAM_P), None);
    let mut production = Store::new();
    assert_eq!(migration.on_runtime_upgrade(&mut production), Ok(Weight::from_parts(5, 0)));
    assert_eq!(production.current_version(POOLS), 1);
}

#[test]
fn verification_run_passes_and_compares_expected_values() {
    let step = MigrationStep::new(0, Weight::from_parts(5, 0))
        .with_pre_check(PARAM_P, None)
        .with_put(PARAM_P, 10)
        .with_post_check(PARAM_P, Some(10));
    let ok = Migration::new(
        set_of(vec![plan_of(POOLS, vec![step])]),
        vec![Expect { key: PARAM_P, value: Some(10) }],
    );
    let mut store = Store::new();
    assert_eq!(ok.try_on_runtime_upgrade(&mut store), Ok(Weight::from_parts(5, 0)));

    let step = MigrationStep::new(0, Weight::from_parts(5, 0)).with_put(PARAM_P, 10);
    let wrong = Migration::new(
        set_of(vec![plan_of(POOLS, vec![step])]),
        vec![Expect { key: PARAM_P, value: Some(16) }],
    );
    let mut store = Store::new();
    assert_eq!(
        wrong.try_on_runtime_upgrade(&mut store),
        Err(MigrationError::InvariantViolation(Violation::Value {
            key: PARAM_P,
            wanted: Some(16),
            held: Some(10),
        }))
    );
}

#[test]
fn post_upgrade_reports_a_unit_left_behind() {
    let step = MigrationStep::new(0, Weight::from_parts(5, 0)).with_put(PARAM_P, 10);
    let migration = Migration::new(set_of(vec![plan_of(POOLS, vec![step])]), vec![]);
    let store = Store::new();
    let snapshot = migration.pre_upgrade(&store);
    assert_eq!(
        migration.post_upgrade(&store, &snapshot),
        Err(MigrationError::InvariantViolation(Violation::Version { unit: POOLS, expected: 1, found: 0 }))
    );
}

#[test]
fn versions_never_decrease_over_runs() {
    let set = two_step_set();
    let mut store = Store::new();
    let mut last = store.current_version(POOLS);
    for limit in [Some(0), Some(1), Some(2), None, None] {
        store.set_write_limit(limit);
        let _ = run(&mut store, &set, false);
        let now = store.current_version(POOLS);
        assert!(now >= last);
        assert!(now == 0 || now == 2);
        last = now;
    }
    assert_eq!(last, 2);
}

#[test]
fn set_version_refuses_a_lower_or_equal_version() {
    let mut store = Store::new();
    assert_eq!(store.set_version(POOLS, 3), Ok(()));
    assert_eq!(
        store.set_version(POOLS, 3),
        Err(MigrationError::NonMonotonicVersion { unit: POOLS, current: 3, requested: 3 })
    );
    assert_eq!(
        store.set_version(POOLS, 2),
        Err(MigrationError::NonMonotonicVersion { unit: POOLS, current: 3, requested: 2 })
    );
    assert_eq!(
        store.set_version(BOUNTIES, 0),
        Err(MigrationError::NonMonotonicVersion { unit: BOUNTIES, current: 0, requested: 0 })
    );
    assert_eq!(store.current_version(POOLS), 3);
}

#[test]
fn full_store_refuses_writes() {
    let mut store = Store::new();
    store.set_write_limit(Some(1));
    assert_eq!(store.put_param(PARAM_P, 1), Ok(()));
    assert_eq!(store.put_param(PARAM_P, 2), Err(MigrationError::WriteFailure));
    assert_eq!(store.set_version(POOLS, 1), Err(MigrationError::WriteFailure));
    assert_eq!(store.param(PARAM_P), Some(1));
    assert_eq!(store.current_version(POOLS), 0);
}

#[test]
fn copy_from_missing_key_is_a_step_failure() {
    let step = MigrationStep::new(4, Weight::from_parts(1, 0)).with_copy(PARAM_P, PARAM_Q);
    let plan = plan_of(POOLS, vec![step]);
    let mut store = Store::new();
    assert_eq!(store.set_version(POOLS, 4), Ok(()));
    assert_eq!(
        run_unit(&mut store, &plan, false),
        Err(MigrationError::StepFailure { unit: POOLS, from: 4, key: PARAM_P })
    );
    assert_eq!(store.current_version(POOLS), 4);
    assert_eq!(store.put_param(PARAM_P, 9), Ok(()));
    assert_eq!(run_unit(&mut store, &plan, false), Ok(Weight::from_parts(1, 0)));
    assert_eq!(store.param(PARAM_Q), Some(9));
    assert_eq!(store.current_version(POOLS), 5);
}

#[test]
fn unit_without_steps_is_untouched() {
    let set = set_of(vec![UnitPlan::new(POOLS)]);
    let mut store = Store::new();
    assert_eq!(run(&mut store, &set, true), Ok(Weight::zero()));
    assert_eq!(store.current_version(POOLS), 0);
    let empty = MigrationSet::new();
    assert_eq!(run(&mut store, &empty, false), Ok(Weight::zero()));
}

#[test]
fn unit_below_the_first_step_is_untouched() {
    let set = set_of(vec![plan_of(POOLS, vec![MigrationStep::new(2, Weight::from_parts(1, 0))])]);
    let mut store = Store::new();
    assert_eq!(run(&mut store, &set, false), Ok(Weight::zero()));
    assert_eq!(store.current_version(POOLS), 0);
}

#[test]
fn run_starts_at_the_recorded_version() {
    let set = two_step_set();
    let mut store = Store::new();
    assert_eq!(store.set_version(POOLS, 1), Ok(()));
    assert_eq!(run(&mut store, &set, false), Ok(Weight::from_parts(250, 2)));
    assert_eq!(store.param(PARAM_P), None);
    assert_eq!(store.param(PARAM_Q), Some(20));
    assert_eq!(store.current_version(POOLS), 2);
}

#[test]
fn plans_refuse_gaps_and_sets_refuse_duplicates() {
    let mut plan = UnitPlan::new(POOLS);
    assert!(plan.push_step(MigrationStep::new(3, Weight::zero())));
    assert!(!plan.push_step(MigrationStep::new(5, Weight::zero())));
    assert!(!plan.push_step(MigrationStep::new(3, Weight::zero())));
    assert!(plan.push_step(MigrationStep::new(4, Weight::zero())));
    assert_eq!(plan.steps.len(), 2);
    let mut top = UnitPlan::new(BOUNTIES);
    assert!(!top.push_step(MigrationStep::new(u64::MAX, Weight::zero())));
    assert!(plan.is_well_formed());

    let mut set = MigrationSet::new();
    assert!(set.push_unit(plan));
    assert!(set.contains_unit(POOLS));
    assert!(!set.contains_unit(BOUNTIES));
    assert!(!set.push_unit(UnitPlan::new(POOLS)));
    let bad = UnitPlan { unit: BOUNTIES, steps: vec![MigrationStep::new(0, Weight::zero()), MigrationStep::new(2, Weight::zero())] };
    assert!(!bad.is_well_formed());
    assert!(!set.push_unit(bad));
    assert_eq!(set.units.len(), 1);
}

#[test]
fn applies_at_only_its_source_version() {
    let step = MigrationStep::new(3, Weight::zero());
    assert!(step.applies_at(3));
    assert!(!step.applies_at(2));
    assert!(!step.applies_at(4));
}

#[test]
fn first_failed_expectation_is_reported() {
    let mut store = Store::new();
    assert_eq!(store.put_param(PARAM_P, 1), Ok(()));
    let checks = vec![
        Expect { key: PARAM_P, value: Some(1) },
        Expect { key: PARAM_Q, value: Some(2) },
        Expect { key: PARAM_P, value: Some(3) },
    ];
    assert_eq!(find_failure(&store, &checks), Some(Expect { key: PARAM_Q, value: Some(2) }));
    assert_eq!(find_failure(&store, &checks[..1].to_vec()), None);
}

#[test]
fn weights_saturate() {
    let a = Weight::from_parts(u64::MAX - 1, 5);
    assert_eq!(a.saturating_add(Weight::from_parts(10, 6)), Weight::from_parts(u64::MAX, 11));
    assert_eq!(Weight::zero(), Weight::from_parts(0, 0));
    let db = RuntimeDbWeight { read: 25, write: 100 };
    assert_eq!(db.reads_writes(1, 1), Weight::from_parts(125, 0));
    assert_eq!(db.reads_writes(2, 3), Weight::from_parts(350, 0));
    assert_eq!(db.writes(5), Weight::from_parts(500, 0));
    let big = RuntimeDbWeight { read: u64::MAX, write: 2 };
    assert_eq!(big.reads_writes(2, 1), Weight::from_parts(u64::MAX, 0));
}

#[test]
fn storage_version_is_raised_only_from_below() {
    let db = RuntimeDbWeight { read: 25, write: 100 };
    let fix = SetStorageVersions { unit: BOUNTIES, version: 4 };
    let mut store = Store::new();
    assert_eq!(fix.on_runtime_upgrade(&mut store, db), Ok(Weight::from_parts(125, 0)));
    assert_eq!(store.current_version(BOUNTIES), 4);
    assert_eq!(fix.on_runtime_upgrade(&mut store, db), Ok(Weight::zero()));
    assert_eq!(store.current_version(BOUNTIES), 4);
    let mut ahead = Store::new();
    assert_eq!(ahead.set_version(BOUNTIES, 5), Ok(()));
    ahead.set_write_limit(Some(0));
    assert_eq!(fix.on_runtime_upgrade(&mut ahead, db), Ok(Weight::zero()));
    assert_eq!(ahead.current_version(BOUNTIES), 5);
    let mut full = Store::new();
    full.set_write_limit(Some(0));
    assert_eq!(fix.on_runtime_upgrade(&mut full, db), Err(MigrationError::WriteFailure));
}

#[test]
fn old_pools_share_is_zero() {
    assert_eq!(NominationPoolsMigrationV4OldPallet::get(), Perbill { parts: 0 });
    assert_eq!(Perbill::zero().parts, 0);
}

#[test]
fn sets_compose_in_declared_order() {
    let mut first = set_of(vec![plan_of(
        POOLS,
        vec![MigrationStep::new(0, Weight::from_parts(1, 0)).with_put(PARAM_P, 1)],
    )]);
    let second = set_of(vec![plan_of(
        BOUNTIES,
        vec![MigrationStep::new(0, Weight::from_parts(2, 0)).with_copy(PARAM_P, PARAM_Q)],
    )]);
    assert!(first.append(second));
    assert_eq!(first.units.len(), 2);
    assert_eq!(first.units[0].unit, POOLS);
    assert_eq!(first.units[1].unit, BOUNTIES);
    let clash = set_of(vec![UnitPlan::new(BOUNTIES)]);
    assert!(!first.append(clash));
    assert_eq!(first.units.len(), 2);
    let mut store = Store::new();
    // The copy of the second unit reads what the first unit wrote.
    assert_eq!(run(&mut store, &first, false), Ok(Weight::from_parts(3, 0)));
    assert_eq!(store.param(PARAM_Q), Some(1));
}

#[test]
fn hand_built_sets_can_be_checked() {
    let good = set_of(vec![plan_of(POOLS, vec![MigrationStep::new(0, Weight::zero())]), UnitPlan::new(BOUNTIES)]);
    assert!(good.is_well_formed());
    let twice = MigrationSet { units: vec![UnitPlan::new(POOLS), UnitPlan::new(BOUNTIES), UnitPlan::new(POOLS)] };
    assert!(!twice.is_well_formed());
    let gap = MigrationSet {
        units: vec![UnitPlan { unit: POOLS, steps: vec![MigrationStep::new(0, Weight::zero()), MigrationStep::new(2, Weight::zero())] }],
    };
    assert!(!gap.is_well_formed());
    assert!(MigrationSet::new().is_well_formed());
}

#[test]
fn unit_ahead_is_left_alone_among_others() {
    let ahead = plan_of(POOLS, vec![MigrationStep::new(0, Weight::from_parts(9, 9)).with_put(PARAM_P, 1)]);
    let behind = plan_of(BOUNTIES, vec![MigrationStep::new(0, Weight::from_parts(4, 0)).with_put(PARAM_Q, 2)]);
    let set = set_of(vec![ahead, behind]);
    let mut store = Store::new();
    assert_eq!(store.set_version(POOLS, 5), Ok(()));
    assert_eq!(run(&mut store, &set, false), Ok(Weight::from_parts(4, 0)));
    assert_eq!(store.current_version(POOLS), 5);
    assert_eq!(store.current_version(BOUNTIES), 1);
    assert_eq!(store.param(PARAM_P), None);
}
