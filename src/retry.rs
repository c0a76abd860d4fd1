//! Steps whose writes are all plain puts: the store they leave is determined by
//! the puts that got through, so a run cut short by a refused write and run
//! again leaves what one uninterrupted run would have left.

use vstd::prelude::*;

use crate::error::MigrationError;
use crate::plan::{Action, MigrationStep, UnitPlan};
use crate::runner::{actions_spec, run_spec, steps_spec, unit_spec};
use crate::store::{version_of, StoreModel};
use crate::weight::Weight;

verus! {

pub open spec fn all_puts(acts: Seq<Action>) -> bool {
    forall|j: int| 0 <= j < acts.len() ==> #[trigger] acts[j] is Put
}

/// Every write of every step of the plan is a put.
pub open spec fn puts_only(plan: UnitPlan) -> bool {
    forall|i: int| 0 <= i < plan.steps@.len() ==> all_puts(#[trigger] plan.steps@[i].actions@)
}

/// The parameters after the puts of `acts`, in order, over `p`.
pub open spec fn put_writes(p: Map<u64, u64>, acts: Seq<Action>) -> Map<u64, u64>
    decreases acts.len(),
{
    if acts.len() == 0 {
        p
    } else {
        match acts.last() {
            Action::Put { key, value } => put_writes(p, acts.drop_last()).insert(key, value),
            Action::CopyValue { .. } => put_writes(p, acts.drop_last()),
        }
    }
}

/// The writes of `steps`, one step after the other.
pub open spec fn writes_of(steps: Seq<MigrationStep>) -> Seq<Action>
    decreases steps.len(),
{
    if steps.len() == 0 {
        Seq::empty()
    } else {
        writes_of(steps.drop_last()) + steps.last().actions@
    }
}

/// The sum of the declared costs of `steps`.
pub open spec fn cost_of(steps: Seq<MigrationStep>) -> Weight
    decreases steps.len(),
{
    if steps.len() == 0 {
        Weight::spec_zero()
    } else {
        cost_of(steps.drop_last()).spec_add(steps.last().cost)
    }
}

/// How many of `len` writes a store that accepts `w` more gets through.
pub open spec fn budget(w: Option<u64>, len: int) -> int {
    match w {
        None => len,
        Some(n) => if n < len {
            n as int
        } else {
            len
        },
    }
}

pub open spec fn after(w: Option<u64>, len: int) -> Option<u64> {
    match w {
        None => None,
        Some(n) => Some((n - budget(w, len)) as u64),
    }
}

proof fn lemma_actions_puts(s: StoreModel, acts: Seq<Action>, unit: u64, from: u64)
    requires
        all_puts(acts),
    ensures
        ({
            let (t, r) = actions_spec(s, acts, unit, from);
            &&& t.params == put_writes(s.params, acts.take(budget(s.writes_left, acts.len() as int)))
            &&& t.stamps == s.stamps
            &&& t.writes_left == after(s.writes_left, acts.len() as int)
            &&& (r is Ok) == (budget(s.writes_left, acts.len() as int) == acts.len())
            &&& r is Err ==> r->Err_0 == MigrationError::WriteFailure
        }),
    decreases acts.len(),
{
    if acts.len() == 0 {
        assert(acts.take(0) =~= acts);
    } else {
        let pre = acts.drop_last();
        let n = acts.len() - 1;
        assert(all_puts(pre)) by {
            assert forall|j: int| 0 <= j < pre.len() implies #[trigger] pre[j] is Put by {
                assert(pre[j] == acts[j]);
            }
        }
        lemma_actions_puts(s, pre, unit, from);
        assert(acts[n] is Put);
        assert(acts.take(n + 1) =~= acts);
        let b = budget(s.writes_left, n);
        if b < n {
            assert(acts.take(b) =~= pre.take(b));
        } else {
            assert(pre.take(n) =~= pre);
            assert(acts.take(n) =~= pre);
        }
    }
}

proof fn lemma_writes_of_puts(steps: Seq<MigrationStep>)
    requires
        forall|i: int| 0 <= i < steps.len() ==> all_puts(#[trigger] steps[i].actions@),
    ensures
        all_puts(writes_of(steps)),
    decreases steps.len(),
{
    if steps.len() > 0 {
        let pre = steps.drop_last();
        assert forall|i: int| 0 <= i < pre.len() implies all_puts(#[trigger] pre[i].actions@) by {
            assert(pre[i] == steps[i]);
        }
        lemma_writes_of_puts(pre);
        assert(all_puts(steps[steps.len() - 1].actions@));
        let w = writes_of(steps);
        assert forall|j: int| 0 <= j < w.len() implies #[trigger] w[j] is Put by {
            if j < writes_of(pre).len() {
                assert(w[j] == writes_of(pre)[j]);
            } else {
                assert(w[j] == steps.last().actions@[j - writes_of(pre).len()]);
            }
        }
    }
}

proof fn lemma_put_writes_concat(p: Map<u64, u64>, a: Seq<Action>, b: Seq<Action>)
    ensures
        put_writes(p, a + b) == put_writes(put_writes(p, a), b),
    decreases b.len(),
{
    if b.len() == 0 {
        assert(a + b =~= a);
    } else {
        lemma_put_writes_concat(p, a, b.drop_last());
        assert((a + b).drop_last() =~= a + b.drop_last());
        assert((a + b).last() == b.last());
    }
}

proof fn lemma_steps_puts(s: StoreModel, unit: u64, steps: Seq<MigrationStep>)
    requires
        forall|i: int| 0 <= i < steps.len() ==> all_puts(#[trigger] steps[i].actions@),
    ensures
        ({
            let (t, r) = steps_spec(s, unit, steps, false);
            let len = writes_of(steps).len() as int;
            &&& t.params == put_writes(s.params, writes_of(steps).take(budget(s.writes_left, len)))
            &&& t.stamps == s.stamps
            &&& t.writes_left == after(s.writes_left, len)
            &&& (r is Ok) == (budget(s.writes_left, len) == len)
            &&& r is Ok ==> r->Ok_0 == cost_of(steps)
            &&& r is Err ==> r->Err_0 == MigrationError::WriteFailure
        }),
    decreases steps.len(),
{
    if steps.len() == 0 {
        assert(writes_of(steps).take(0) =~= writes_of(steps));
    } else {
        let pre = steps.drop_last();
        let last = steps.last();
        assert forall|i: int| 0 <= i < pre.len() implies all_puts(#[trigger] pre[i].actions@) by {
            assert(pre[i] == steps[i]);
        }
        assert(all_puts(steps[steps.len() - 1].actions@));
        lemma_steps_puts(s, unit, pre);
        let wp = writes_of(pre);
        let w = writes_of(steps);
        assert(w == wp + last.actions@);
        let b = budget(s.writes_left, wp.len() as int);
        if b < wp.len() {
            assert(w.take(b) =~= wp.take(b));
        } else {
            let t = steps_spec(s, unit, pre, false).0;
            assert(wp.take(b) =~= wp);
            lemma_actions_puts(t, last.actions@, unit, last.from);
            let b2 = budget(t.writes_left, last.actions@.len() as int);
            assert(w.take(wp.len() + b2) =~= wp + last.actions@.take(b2));
            lemma_put_writes_concat(s.params, wp, last.actions@.take(b2));
        }
    }
}

/// Whether `m1` and `m2` agree on `k`: both hold nothing there, or the same value.
pub open spec fn agree(m1: Map<u64, u64>, m2: Map<u64, u64>, k: u64) -> bool {
    &&& m1.contains_key(k) == m2.contains_key(k)
    &&& m1.contains_key(k) ==> m1[k] == m2[k]
}

pub open spec fn written(acts: Seq<Action>, k: u64) -> bool {
    exists|j: int| 0 <= j < acts.len() && #[trigger] acts[j] == Action::Put { key: k, value: acts[j]->Put_value }
}

proof fn lemma_put_writes_agree(m1: Map<u64, u64>, m2: Map<u64, u64>, acts: Seq<Action>, k: u64)
    requires
        agree(m1, m2, k) || written(acts, k),
    ensures
        agree(put_writes(m1, acts), put_writes(m2, acts), k),
    decreases acts.len(),
{
    if acts.len() > 0 {
        let pre = acts.drop_last();
        let n = acts.len() - 1;
        match acts.last() {
            Action::Put { key, value } => {
                if key != k {
                    if !agree(m1, m2, k) {
                        let j = choose|j: int| 0 <= j < acts.len() && #[trigger] acts[j] == Action::Put { key: k, value: acts[j]->Put_value };
                        assert(j != n);
                        assert(pre[j] == acts[j]);
                    }
                    lemma_put_writes_agree(m1, m2, pre, k);
                }
            },
            Action::CopyValue { .. } => {
                if !agree(m1, m2, k) {
                    let j = choose|j: int| 0 <= j < acts.len() && #[trigger] acts[j] == Action::Put { key: k, value: acts[j]->Put_value };
                    assert(j != n);
                    assert(pre[j] == acts[j]);
                }
                lemma_put_writes_agree(m1, m2, pre, k);
            },
        }
    }
}

proof fn lemma_put_writes_outside(p: Map<u64, u64>, acts: Seq<Action>, k: u64)
    requires
        !written(acts, k),
    ensures
        agree(put_writes(p, acts), p, k),
    decreases acts.len(),
{
    if acts.len() > 0 {
        let pre = acts.drop_last();
        assert(!written(pre, k)) by {
            if written(pre, k) {
                let j = choose|j: int| 0 <= j < pre.len() && #[trigger] pre[j] == Action::Put { key: k, value: pre[j]->Put_value };
                assert(acts[j] == pre[j]);
            }
        }
        lemma_put_writes_outside(p, pre, k);
        match acts.last() {
            Action::Put { key, value } => {
                if key == k {
                    assert(acts[acts.len() - 1] == Action::Put { key: k, value: acts[acts.len() - 1]->Put_value });
                }
            },
            Action::CopyValue { .. } => {},
        }
    }
}

/// Puts that got through before a cut, then all of them again, leave what all of
/// them leave once.
proof fn lemma_put_writes_replay(p: Map<u64, u64>, acts: Seq<Action>, k: int)
    requires
        0 <= k <= acts.len(),
    ensures
        put_writes(put_writes(p, acts.take(k)), acts) == put_writes(p, acts),
{
    let q = put_writes(p, acts.take(k));
    assert forall|key: u64| agree(put_writes(q, acts), put_writes(p, acts), key) by {
        if !written(acts, key) {
            assert(!written(acts.take(k), key)) by {
                if written(acts.take(k), key) {
                    let j = choose|j: int|
                        0 <= j < acts.take(k).len() && #[trigger] acts.take(k)[j] == Action::Put {
                            key: key,
                            value: acts.take(k)[j]->Put_value,
                        };
                    assert(acts[j] == acts.take(k)[j]);
                }
            }
            lemma_put_writes_outside(p, acts.take(k), key);
        }
        lemma_put_writes_agree(q, p, acts, key);
    }
    let m1 = put_writes(q, acts);
    let m2 = put_writes(p, acts);
    assert forall|key: u64| #[trigger] m1.dom().contains(key) == m2.dom().contains(key) && (m1.dom().contains(key) ==> m1[key] == m2[key]) by {
        assert(agree(m1, m2, key));
    }
    assert(m1 =~= m2);
}

/// Crash-retry: where a run of one unit whose steps only put values is cut
/// short by a store that refuses writes after `limit` of them, the unit keeps
/// its version, and running it again once the store accepts writes leaves the
/// store and returns the cost that one uninterrupted run would have.
pub proof fn lemma_retry_after_interruption(s: StoreModel, plan: UnitPlan, limit: u64)
    requires
        plan.wf(),
        puts_only(plan),
        s.writes_left is None,
        run_spec(StoreModel { writes_left: Some(limit), ..s }, seq![plan], false).1 is Err,
    ensures
        ({
            let (t, r) = run_spec(StoreModel { writes_left: Some(limit), ..s }, seq![plan], false);
            &&& r == Err::<Weight, MigrationError>(MigrationError::WriteFailure)
            &&& version_of(t, plan.unit) == version_of(s, plan.unit)
            &&& run_spec(StoreModel { writes_left: None, ..t }, seq![plan], false) == run_spec(s, seq![plan], false)
        }),
{
    let sl = StoreModel { writes_left: Some(limit), ..s };
    let one = seq![plan];
    assert(one.drop_last() =~= Seq::<UnitPlan>::empty());
    assert(one.last() == plan);
    let v = version_of(s, plan.unit);
    assert(version_of(sl, plan.unit) == v);
    assert(run_spec(sl, one.drop_last(), false) == (sl, Ok::<Weight, MigrationError>(Weight::spec_zero())));
    assert(unit_spec(sl, plan, false).1 is Err);
    assert(plan.applies(v));
    let sel = plan.selected(v);
    let start = v - plan.first();
    assert forall|i: int| 0 <= i < sel.len() implies all_puts(#[trigger] sel[i].actions@) by {
        assert(sel[i] == plan.steps@[start + i]);
    }
    let f = writes_of(sel);
    lemma_steps_puts(sl, plan.unit, sel);
    let b = budget(sl.writes_left, f.len() as int);
    let t = run_spec(sl, one, false).0;
    assert(t.params == put_writes(s.params, f.take(b)));
    assert(t.stamps == s.stamps);
    let t2 = StoreModel { writes_left: None, ..t };
    assert(version_of(t2, plan.unit) == v);
    lemma_steps_puts(t2, plan.unit, sel);
    lemma_steps_puts(s, plan.unit, sel);
    assert(f.take(f.len() as int) =~= f);
    lemma_put_writes_replay(s.params, f, b);
    let x = steps_spec(t2, plan.unit, sel, false).0;
    let y = steps_spec(s, plan.unit, sel, false).0;
    assert(x.params == y.params);
    assert(x == y);
    assert(run_spec(t2, one.drop_last(), false) == (t2, Ok::<Weight, MigrationError>(Weight::spec_zero())));
    assert(run_spec(s, one.drop_last(), false) == (s, Ok::<Weight, MigrationError>(Weight::spec_zero())));
    assert(unit_spec(t2, plan, false) == unit_spec(s, plan, false));
}

/// Exactly-once application: a unit recorded at version 0 whose plan holds the
/// steps from 0 to 1 and from 1 to 2, both of which only put values, ends a
/// production run on a store that accepts every write at version 2, with the
/// puts of both steps applied in order and the sum of their costs returned.
pub proof fn lemma_two_steps_from_zero(s: StoreModel, plan: UnitPlan)
    requires
        plan.wf(),
        puts_only(plan),
        plan.steps@.len() == 2,
        plan.steps@[0].from == 0,
        version_of(s, plan.unit) == 0,
        s.writes_left is None,
    ensures
        ({
            let (t, r) = run_spec(s, seq![plan], false);
            &&& r == Ok::<Weight, MigrationError>(plan.steps@[0].cost.spec_add(plan.steps@[1].cost))
            &&& version_of(t, plan.unit) == 2
            &&& t.params == put_writes(put_writes(s.params, plan.steps@[0].actions@), plan.steps@[1].actions@)
        }),
{
    let one = seq![plan];
    assert(one.drop_last() =~= Seq::<UnitPlan>::empty());
    assert(one.last() == plan);
    assert(run_spec(s, one.drop_last(), false) == (s, Ok::<Weight, MigrationError>(Weight::spec_zero())));
    assert(plan.applies(0));
    let sel = plan.selected(0);
    assert(sel =~= plan.steps@);
    assert forall|i: int| 0 <= i < sel.len() implies all_puts(#[trigger] sel[i].actions@) by {}
    lemma_steps_puts(s, plan.unit, sel);
    let f = writes_of(sel);
    assert(f.take(f.len() as int) =~= f);
    let first = sel.drop_last();
    assert(first.drop_last() =~= Seq::<MigrationStep>::empty());
    assert(first.last() == sel[0]);
    assert(writes_of(first.drop_last()) == Seq::<Action>::empty());
    assert(writes_of(first) =~= sel[0].actions@);
    assert(cost_of(first.drop_last()) == Weight::spec_zero());
    lemma_put_writes_concat(s.params, sel[0].actions@, sel[1].actions@);
    assert(cost_of(first) == sel[0].cost);
}

} // verus!
