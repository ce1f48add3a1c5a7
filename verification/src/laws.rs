//! Laws of the simulation, stated over the abstract model.
//!
//! Every mutation of the shared store is one `apply_op` step, so a run of
//! the whole system — any interleaving of tick processes and commands — is
//! `apply_ops` over some sequence of operations. The lemmas here state what
//! holds of every such run.

use vstd::prelude::*;

use vstd::arithmetic::div_mod::lemma_div_by_multiple;

use crate::model::Op;
use crate::model::StateModel;
use crate::model::apply_op;
use crate::model::bus_or_default;
use crate::model::initial_state;
use crate::model::op_wf;
use crate::model::tick_dir;
use crate::model::tick_direction;
use crate::model::tick_value;
use crate::model::wf;

verus! {

/// The store after a whole run: the operations of `ops`, applied in order.
pub open spec fn apply_ops(m: StateModel, ops: Seq<Op>) -> StateModel
    decreases ops.len(),
{
    if ops.len() == 0 {
        m
    } else {
        apply_op(apply_ops(m, ops.drop_last()), ops.last())
    }
}

/// Every operation of the run carries well-formed parameters.
pub open spec fn all_ops_wf(ops: Seq<Op>) -> bool {
    forall|i: int| 0 <= i < ops.len() ==> op_wf(ops.index(i))
}

/// A tick never leaves the simulated range: from a level within [0, 1000]
/// and a nonnegative speed, the new level is again within [0, 1000].
pub proof fn lemma_tick_value_in_range(v: int, s: int, inc: bool)
    requires
        0 <= v <= 1000,
        0 <= s,
    ensures
        0 <= tick_value(v, s, inc) <= 1000,
{
}

/// One operation keeps the store well formed.
pub proof fn lemma_op_preserves_wf(m: StateModel, op: Op)
    requires
        wf(m),
        op_wf(op),
    ensures
        wf(apply_op(m, op)),
{
    match op {
        Op::Tick { id, inc } => {
            let b = bus_or_default(m, id, true);
            assert(0 <= b.percent <= 1000);
            lemma_tick_value_in_range(b.percent, m.speed, inc);
        },
        Op::Toggle { id } => {
            let b = bus_or_default(m, id, false);
            assert(0 <= b.percent <= 1000);
        },
        Op::SetSpeed { .. } => {
        },
        Op::SetRefreshRate { .. } => {
        },
    }
}

/// Every bus's level stays within [0, 1000] over every run: any interleaving
/// of ticks, toggles and parameter updates, starting from a well-formed
/// store, leaves a well-formed store.
pub proof fn lemma_levels_stay_in_range(m: StateModel, ops: Seq<Op>)
    requires
        wf(m),
        all_ops_wf(ops),
    ensures
        wf(apply_ops(m, ops)),
    decreases ops.len(),
{
    if ops.len() > 0 {
        assert(all_ops_wf(ops.drop_last())) by {
            assert(forall|i: int|
                0 <= i < ops.drop_last().len() ==> ops.drop_last().index(i) == ops.index(i));
        }
        lemma_levels_stay_in_range(m, ops.drop_last());
        lemma_op_preserves_wf(apply_ops(m, ops.drop_last()), ops.last());
    }
}

/// How many of the run's operations toggle bus `id`.
pub open spec fn toggles_on(op: Op, id: u128) -> nat {
    match op {
        Op::Toggle { id: t } => if t == id {
            1nat
        } else {
            0nat
        },
        _ => 0nat,
    }
}

/// Number of toggles of bus `id` in the run.
pub open spec fn toggle_count(ops: Seq<Op>, id: u128) -> nat
    decreases ops.len(),
{
    if ops.len() == 0 {
        0nat
    } else {
        toggle_count(ops.drop_last(), id) + toggles_on(ops.last(), id)
    }
}

/// No toggle is ever lost: after any run, the active flag of a bus equals
/// its flag before the run, flipped once per toggle of that bus — that is,
/// it is determined by the parity of the toggle count, in the order the
/// operations were applied.
pub proof fn lemma_toggle_parity(m: StateModel, ops: Seq<Op>, id: u128)
    requires
        m.buses.dom().contains(id),
    ensures
        apply_ops(m, ops).buses.dom().contains(id),
        apply_ops(m, ops).buses.index(id).is_active == (if toggle_count(ops, id) % 2 == 1 {
            !m.buses.index(id).is_active
        } else {
            m.buses.index(id).is_active
        }),
    decreases ops.len(),
{
    if ops.len() > 0 {
        lemma_toggle_parity(m, ops.drop_last(), id);
    }
}

/// Whether `op` ticks or toggles bus `id`.
pub open spec fn touches(op: Op, id: u128) -> bool {
    match op {
        Op::Tick { id: t, .. } => t == id,
        Op::Toggle { id: t } => t == id,
        _ => false,
    }
}

/// Whether any operation of the run ticks or toggles bus `id`.
pub open spec fn ops_touch(ops: Seq<Op>, id: u128) -> bool {
    exists|i: int| 0 <= i < ops.len() && touches(ops.index(i), id)
}

/// Whether the run's first operation on bus `id` is a tick — which creates
/// the bus active — rather than a toggle, which creates it inactive and at
/// once flips it. Meaningful only when some operation touches `id`.
pub open spec fn first_touch_is_tick(ops: Seq<Op>, id: u128) -> bool
    decreases ops.len(),
{
    if ops.len() == 0 {
        true
    } else if ops_touch(ops.drop_last(), id) {
        first_touch_is_tick(ops.drop_last(), id)
    } else {
        ops.last() is Tick
    }
}

proof fn lemma_touched_iff(ops: Seq<Op>, id: u128)
    ensures
        touched(ops).contains(id) <==> ops_touch(ops, id),
    decreases ops.len(),
{
    if ops.len() > 0 {
        lemma_touched_iff(ops.drop_last(), id);
        if ops_touch(ops, id) {
            let i = choose|i: int| 0 <= i < ops.len() && touches(ops.index(i), id);
            if i < ops.len() - 1 {
                assert(touches(ops.drop_last().index(i), id));
            }
        }
        if ops_touch(ops.drop_last(), id) {
            let i = choose|i: int|
                0 <= i < ops.drop_last().len() && touches(ops.drop_last().index(i), id);
            assert(touches(ops.index(i), id));
        }
        if touches(ops.last(), id) {
            assert(touches(ops.index(ops.len() - 1), id));
        }
    }
}

proof fn lemma_untouched_no_toggles(ops: Seq<Op>, id: u128)
    requires
        !ops_touch(ops, id),
    ensures
        toggle_count(ops, id) == 0,
    decreases ops.len(),
{
    if ops.len() > 0 {
        assert(!ops_touch(ops.drop_last(), id)) by {
            if ops_touch(ops.drop_last(), id) {
                let i = choose|i: int|
                    0 <= i < ops.drop_last().len() && touches(ops.drop_last().index(i), id);
                assert(touches(ops.index(i), id));
            }
        }
        lemma_untouched_no_toggles(ops.drop_last(), id);
        assert(!touches(ops.index(ops.len() - 1), id));
    }
}

/// The parity law for a bus the store does not yet hold, covering its lazy
/// creation: once any operation of the run touches bus `id`, the bus exists,
/// and its active flag is its creation default — active for a first tick,
/// inactive for a first toggle — flipped once per toggle of the run,
/// including the toggle that created it. In particular a single toggle of an
/// unseen identifier leaves it active, at level 0.
pub proof fn lemma_toggle_parity_of_created(m: StateModel, ops: Seq<Op>, id: u128)
    requires
        !m.buses.dom().contains(id),
        ops_touch(ops, id),
    ensures
        apply_ops(m, ops).buses.dom().contains(id),
        apply_ops(m, ops).buses.index(id).is_active == (if toggle_count(ops, id) % 2 == 1 {
            !first_touch_is_tick(ops, id)
        } else {
            first_touch_is_tick(ops, id)
        }),
    decreases ops.len(),
{
    if ops.len() == 0 {
        assert(false);
    } else if ops_touch(ops.drop_last(), id) {
        lemma_toggle_parity_of_created(m, ops.drop_last(), id);
    } else {
        lemma_registry_domain(m, ops.drop_last());
        lemma_touched_iff(ops.drop_last(), id);
        lemma_untouched_no_toggles(ops.drop_last(), id);
        assert(touches(ops.last(), id)) by {
            let i = choose|i: int| 0 <= i < ops.len() && touches(ops.index(i), id);
            if i < ops.len() - 1 {
                assert(touches(ops.drop_last().index(i), id));
            }
        }
    }
}

/// The identifiers the run's operations tick or toggle.
pub open spec fn touched(ops: Seq<Op>) -> Set<u128>
    decreases ops.len(),
{
    if ops.len() == 0 {
        Set::empty()
    } else {
        touched(ops.drop_last()).union(
            match ops.last() {
                Op::Tick { id, .. } => set![id],
                Op::Toggle { id } => set![id],
                _ => Set::empty(),
            },
        )
    }
}

/// The registry holds exactly the buses that have been ticked or toggled at
/// least once, besides those the store already held before the run.
pub proof fn lemma_registry_domain(m: StateModel, ops: Seq<Op>)
    ensures
        apply_ops(m, ops).buses.dom() == m.buses.dom().union(touched(ops)),
    decreases ops.len(),
{
    if ops.len() == 0 {
        assert(apply_ops(m, ops).buses.dom() =~= m.buses.dom().union(touched(ops)));
    } else {
        lemma_registry_domain(m, ops.drop_last());
        assert(apply_ops(m, ops).buses.dom() =~= m.buses.dom().union(touched(ops)));
    }
}

/// Every snapshot taken since process start is exact: starting from the
/// freshly constructed store, after any run the registry holds exactly the
/// identifiers that have been ticked or toggled at least once, and every
/// level lies within [0, 1000].
pub proof fn lemma_snapshot_from_start(ops: Seq<Op>)
    requires
        all_ops_wf(ops),
    ensures
        wf(apply_ops(initial_state(), ops)),
        apply_ops(initial_state(), ops).buses.dom() == touched(ops),
{
    lemma_levels_stay_in_range(initial_state(), ops);
    lemma_registry_domain(initial_state(), ops);
    assert(initial_state().buses.dom().union(touched(ops)) =~= touched(ops));
}

/// A tick of an inactive bus changes nothing at all, and hands the tick
/// process its direction flag back unchanged — the bus is frozen at its
/// level, and once reactivated it resumes from that level in the direction
/// it was last moving.
pub proof fn lemma_inactive_tick_freezes(m: StateModel, id: u128, inc: bool)
    requires
        m.buses.dom().contains(id),
        !m.buses.index(id).is_active,
    ensures
        apply_op(m, Op::Tick { id, inc }) == m,
        tick_direction(m, id, inc) == inc,
{
    assert(apply_op(m, Op::Tick { id, inc }).buses =~= m.buses);
    assert(apply_op(m, Op::Tick { id, inc }) =~= m);
}

/// Every operation of the run is a tick.
pub open spec fn all_tick_ops(ops: Seq<Op>) -> bool {
    forall|i: int| 0 <= i < ops.len() ==> ops.index(i) is Tick
}

/// With the speed at 0, ticking leaves every bus exactly as it is: its
/// level stays constant and its active flag is untouched, over any sequence
/// of ticks of any buses.
pub proof fn lemma_speed_zero_freezes(m: StateModel, ops: Seq<Op>, id: u128)
    requires
        wf(m),
        m.speed == 0,
        all_tick_ops(ops),
        m.buses.dom().contains(id),
    ensures
        apply_ops(m, ops).speed == 0,
        apply_ops(m, ops).buses.dom().contains(id),
        apply_ops(m, ops).buses.index(id) == m.buses.index(id),
    decreases ops.len(),
{
    if ops.len() > 0 {
        assert(all_tick_ops(ops.drop_last())) by {
            assert(forall|i: int|
                0 <= i < ops.drop_last().len() ==> ops.drop_last().index(i) == ops.index(i));
        }
        lemma_speed_zero_freezes(m, ops.drop_last(), id);
        assert(all_ops_wf(ops.drop_last())) by {
            assert(forall|i: int|
                0 <= i < ops.drop_last().len() ==> ops.drop_last().index(i) is Tick);
        }
        lemma_levels_stay_in_range(m, ops.drop_last());
    }
}

/// The state of one tick process's bus after `n` ticks at constant speed
/// `s`, starting from level `v` with direction flag `inc`: the pair of the
/// level and the direction flag the process then holds.
pub open spec fn run_ticks(v: int, inc: bool, s: int, n: nat) -> (int, bool)
    decreases n,
{
    if n == 0 {
        (v, inc)
    } else {
        let prev = run_ticks(v, inc, s, (n - 1) as nat);
        (tick_value(prev.0, s, prev.1), tick_dir(prev.0, s, prev.1))
    }
}

/// Ticking `a + b` times is ticking `a` times and then `b` more.
pub proof fn lemma_run_ticks_add(v: int, inc: bool, s: int, a: nat, b: nat)
    ensures
        run_ticks(v, inc, s, a + b) == run_ticks(
            run_ticks(v, inc, s, a).0,
            run_ticks(v, inc, s, a).1,
            s,
            b,
        ),
    decreases b,
{
    if b > 0 {
        lemma_run_ticks_add(v, inc, s, a, (b - 1) as nat);
    }
}

/// While the boundary is still more than one step away, `k` increasing
/// ticks from level 0 reach exactly level `k * s`, still increasing.
pub proof fn lemma_climb(s: int, k: nat)
    requires
        0 < s,
        k * s + s <= 1000,
    ensures
        run_ticks(0, true, s, k) == (k * s, true),
    decreases k,
{
    if k == 0 {
        assert(k * s == 0) by (nonlinear_arith)
            requires
                k == 0nat,
        ;
    } else {
        assert((k - 1) * s == k * s - s) by (nonlinear_arith);
        lemma_climb(s, (k - 1) as nat);
        let prev = run_ticks(0, true, s, (k - 1) as nat);
        assert(prev == ((k - 1) * s, true));
        assert(run_ticks(0, true, s, k) == (tick_value(prev.0, s, prev.1), tick_dir(
            prev.0,
            s,
            prev.1,
        )));
    }
}

/// While level 0 is still at least one step away, `k` decreasing ticks from
/// level `v` reach exactly level `v - k * s`, still decreasing.
pub proof fn lemma_descend(v: int, s: int, k: nat)
    requires
        0 < s,
        k * s <= v,
    ensures
        run_ticks(v, false, s, k) == (v - k * s, false),
    decreases k,
{
    if k == 0 {
        assert(k * s == 0) by (nonlinear_arith)
            requires
                k == 0nat,
        ;
    } else {
        assert((k - 1) * s == k * s - s) by (nonlinear_arith);
        lemma_descend(v, s, (k - 1) as nat);
        let prev = run_ticks(v, false, s, (k - 1) as nat);
        assert(prev == (v - (k - 1) * s, false));
        assert(run_ticks(v, false, s, k) == (tick_value(prev.0, s, prev.1), tick_dir(
            prev.0,
            s,
            prev.1,
        )));
    }
}

/// The oscillation is exact. From level 0, increasing, at a constant speed
/// `s` that divides 1000 (`n` being the quotient `1000 / s`): after `n`
/// ticks the level is exactly 1000 and the direction has flipped; after `n`
/// more it is exactly 0 again, the direction flipping on the tick after
/// that — so the starting state recurs, with a period of `2 * n + 1` ticks
/// (the extra tick is the one that merely flips the direction at level 0).
pub proof fn lemma_oscillation(s: int, n: int)
    requires
        0 < s <= 1000,
        0 <= n,
        n * s == 1000,
    ensures
        n == 1000int / s,
        run_ticks(0, true, s, n as nat) == (1000int, false),
        run_ticks(0, true, s, (2 * n) as nat) == (0int, false),
        run_ticks(0, true, s, (2 * n + 1) as nat) == (0int, true),
{
    lemma_div_by_multiple(n, s);
    assert(1 <= n) by (nonlinear_arith)
        requires
            0 < s <= 1000,
            n * s == 1000,
    ;
    assert((n - 1) * s + s == n * s) by (nonlinear_arith);
    lemma_climb(s, (n - 1) as nat);
    assert(run_ticks(0, true, s, n as nat) == (1000int, false));
    lemma_run_ticks_add(0, true, s, n as nat, n as nat);
    lemma_descend(1000, s, n as nat);
    assert(run_ticks(0, true, s, (2 * n) as nat) == (0int, false));
    lemma_run_ticks_add(0, true, s, (2 * n) as nat, 1nat);
}

/// The cycle repeats indefinitely: any whole number of periods of
/// `2 * n + 1` ticks returns the bus to level 0, increasing.
pub proof fn lemma_cycle_repeats(s: int, n: int, j: nat)
    requires
        0 < s <= 1000,
        0 <= n,
        n * s == 1000,
    ensures
        run_ticks(0, true, s, ((2 * n + 1) * j) as nat) == (0int, true),
    decreases j,
{
    if j == 0 {
        assert((2 * n + 1) * j == 0) by (nonlinear_arith)
            requires
                j == 0nat,
        ;
    } else {
        lemma_cycle_repeats(s, n, (j - 1) as nat);
        assert((2 * n + 1) * j == (2 * n + 1) * (j - 1) + (2 * n + 1)) by (nonlinear_arith);
        lemma_run_ticks_add(0, true, s, ((2 * n + 1) * (j - 1)) as nat, (2 * n + 1) as nat);
        lemma_oscillation(s, n);
    }
}

} // verus!
