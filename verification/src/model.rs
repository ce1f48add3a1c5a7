//! Mathematical model of the simulation.
//!
//! A `StateModel` is the abstract value of the whole shared store: the three
//! process-wide parameters and a map from bus identifier to the bus's
//! abstract state. Every operation of the command surface and of the tick
//! process is described by `apply_op`, so that the executable code can
//! promise exactly `final(self)@ == apply_op(old(self)@, op)`.

use vstd::prelude::*;

verus! {

/// Abstract state of one bus: its charge level in tenths of a percent and
/// whether the tick process may advance it.
#[verifier::ext_equal]
pub ghost struct BusModel {
    pub percent: int,
    pub is_active: bool,
}

/// Abstract state of the whole shared store.
#[verifier::ext_equal]
pub ghost struct StateModel {
    pub balance: int,
    pub speed: int,
    pub refresh_rate: int,
    pub buses: Map<u128, BusModel>,
}

/// One operation on the shared store. `Tick` carries the tick process's
/// private direction flag; the other three are the mutating commands.
pub ghost enum Op {
    Tick { id: u128, inc: bool },
    Toggle { id: u128 },
    SetSpeed { speed: int },
    SetRefreshRate { rate: int },
}

/// The store as it is first constructed.
pub open spec fn initial_state() -> StateModel {
    StateModel { balance: 0, speed: 1, refresh_rate: 20, buses: Map::empty() }
}

/// Charge level after one tick of an increasing (`inc`) or decreasing bus:
/// advance by `s`, clamping exactly to the boundary instead of overshooting.
pub open spec fn tick_value(v: int, s: int, inc: bool) -> int {
    if inc {
        if v + s >= 1000 {
            1000
        } else {
            v + s
        }
    } else {
        if v < s {
            0
        } else {
            v - s
        }
    }
}

/// Direction flag after one tick: it flips exactly when the tick clamps to a
/// boundary.
pub open spec fn tick_dir(v: int, s: int, inc: bool) -> bool {
    if inc {
        v + s < 1000
    } else {
        v < s
    }
}

/// The bus under `id`, or the lazily created default when `id` is unseen:
/// level 0, with `default_active` depending on who creates it (the tick
/// process creates active buses, the toggle command inactive ones).
pub open spec fn bus_or_default(m: StateModel, id: u128, default_active: bool) -> BusModel {
    if m.buses.dom().contains(id) {
        m.buses[id]
    } else {
        BusModel { percent: 0, is_active: default_active }
    }
}

/// The effect of one operation on the store.
///
/// A tick looks the bus up (creating it active if unseen), and advances its
/// level only when it is active; an inactive bus is left exactly as it is.
/// A toggle looks the bus up (creating it inactive if unseen) and flips its
/// `is_active` flag. The two setters overwrite their parameter
/// unconditionally and touch nothing else.
pub open spec fn apply_op(m: StateModel, op: Op) -> StateModel {
    match op {
        Op::Tick { id, inc } => {
            let b = bus_or_default(m, id, true);
            if b.is_active {
                StateModel {
                    buses: m.buses.insert(
                        id,
                        BusModel { percent: tick_value(b.percent, m.speed, inc), is_active: true },
                    ),
                    ..m
                }
            } else {
                StateModel { buses: m.buses.insert(id, b), ..m }
            }
        },
        Op::Toggle { id } => {
            let b = bus_or_default(m, id, false);
            StateModel {
                buses: m.buses.insert(
                    id,
                    BusModel { percent: b.percent, is_active: !b.is_active },
                ),
                ..m
            }
        },
        Op::SetSpeed { speed } => StateModel { speed: speed, ..m },
        Op::SetRefreshRate { rate } => StateModel { refresh_rate: rate, ..m },
    }
}

/// The direction flag a tick process holds after ticking bus `id` with flag
/// `inc`: unchanged when the bus exists and is inactive, advanced otherwise.
pub open spec fn tick_direction(m: StateModel, id: u128, inc: bool) -> bool {
    let b = bus_or_default(m, id, true);
    if b.is_active {
        tick_dir(b.percent, m.speed, inc)
    } else {
        inc
    }
}

/// Well-formedness of the abstract store: the speed is a machine unsigned
/// integer, and every bus's level lies within the simulated range.
pub open spec fn wf(m: StateModel) -> bool {
    &&& 0 <= m.speed
    &&& forall|id: u128|
        m.buses.dom().contains(id) ==> 0 <= m.buses.index(id).percent <= 1000
}

/// Well-formedness of one operation: a new speed is nonnegative, as it is
/// for every caller that hands in a machine unsigned integer. The other
/// operations need nothing.
pub open spec fn op_wf(op: Op) -> bool {
    match op {
        Op::SetSpeed { speed } => 0 <= speed,
        _ => true,
    }
}

} // verus!
