//! The shared simulation store and its operations.
//!
//! `SimState` owns the process-wide parameters and the registry of buses.
//! Its abstract value (`view`) is a `model::StateModel`, and every public
//! operation promises to be exactly one `model::apply_op` step, so that
//! callers — the tick loops and the command surface alike — reason purely
//! over the model.

use vstd::prelude::*;

use crate::model::BusModel;
use crate::model::Op;
use crate::model::StateModel;
use crate::model::apply_op;
use crate::model::initial_state;
use crate::model::tick_dir;
use crate::model::tick_direction;
use crate::model::tick_value;

verus! {

/// One simulated bus: an opaque identifier, a charge level in tenths of a
/// percent (0 to 1000), and the flag that gates the tick process.
#[derive(Clone, Copy, Debug, PartialEq, Eq, Structural)]
pub struct Bus {
    pub id: u128,
    pub percent: u32,
    pub is_active: bool,
}

/// The abstract value of one registry entry.
pub open spec fn bus_model(b: Bus) -> BusModel {
    BusModel { percent: b.percent as int, is_active: b.is_active }
}

/// The registry sequence read as a map from identifier to bus state. A later
/// entry would shadow an earlier one with the same identifier; the registry
/// invariant keeps identifiers distinct, so no shadowing ever happens.
pub open spec fn seq_to_map(s: Seq<Bus>) -> Map<u128, BusModel>
    decreases s.len(),
{
    if s.len() == 0 {
        Map::empty()
    } else {
        seq_to_map(s.drop_last()).insert(s.last().id, bus_model(s.last()))
    }
}

/// Distinct identifiers: each maps to at most one registry entry.
pub open spec fn distinct_ids(s: Seq<Bus>) -> bool {
    forall|i: int, j: int| 0 <= i < j < s.len() ==> s.index(i).id != s.index(j).id
}

/// Every level in the registry lies within the simulated range.
pub open spec fn levels_in_range(s: Seq<Bus>) -> bool {
    forall|i: int| 0 <= i < s.len() ==> s.index(i).percent <= 1000
}

proof fn lemma_seq_to_map_contains(s: Seq<Bus>, id: u128)
    ensures
        seq_to_map(s).dom().contains(id) <==> exists|i: int|
            0 <= i < s.len() && s.index(i).id == id,
    decreases s.len(),
{
    if s.len() > 0 {
        lemma_seq_to_map_contains(s.drop_last(), id);
        if seq_to_map(s).dom().contains(id) {
            if s.last().id == id {
                assert(s.index(s.len() - 1).id == id);
            } else {
                let i = choose|i: int| 0 <= i < s.drop_last().len() && s.drop_last().index(i).id == id;
                assert(s.index(i).id == id);
            }
        }
        if exists|i: int| 0 <= i < s.len() && s.index(i).id == id {
            let i = choose|i: int| 0 <= i < s.len() && s.index(i).id == id;
            if i < s.len() - 1 {
                assert(s.drop_last().index(i).id == id);
            }
        }
    }
}

proof fn lemma_seq_to_map_at(s: Seq<Bus>, k: int)
    requires
        distinct_ids(s),
        0 <= k < s.len(),
    ensures
        seq_to_map(s).dom().contains(s.index(k).id),
        seq_to_map(s).index(s.index(k).id) == bus_model(s.index(k)),
    decreases s.len(),
{
    if k == s.len() - 1 {
    } else {
        lemma_seq_to_map_at(s.drop_last(), k);
        assert(s.drop_last().index(k) == s.index(k));
        assert(s.last().id != s.index(k).id);
    }
}

proof fn lemma_seq_to_map_push(s: Seq<Bus>, b: Bus)
    ensures
        seq_to_map(s.push(b)) == seq_to_map(s).insert(b.id, bus_model(b)),
{
    assert(s.push(b).drop_last() =~= s);
    assert(s.push(b).last() == b);
}

proof fn lemma_seq_to_map_update(s: Seq<Bus>, k: int, b: Bus)
    requires
        distinct_ids(s),
        0 <= k < s.len(),
        s.index(k).id == b.id,
    ensures
        seq_to_map(s.update(k, b)) == seq_to_map(s).insert(b.id, bus_model(b)),
    decreases s.len(),
{
    let t = s.update(k, b);
    if k == s.len() - 1 {
        assert(t.drop_last() =~= s.drop_last());
        assert(t.last() == b);
        assert(seq_to_map(t) == seq_to_map(s.drop_last()).insert(b.id, bus_model(b)));
        assert(seq_to_map(s).insert(b.id, bus_model(b)) =~= seq_to_map(
            s.drop_last(),
        ).insert(b.id, bus_model(b)));
    } else {
        assert(t.drop_last() =~= s.drop_last().update(k, b));
        assert(t.last() == s.last());
        lemma_seq_to_map_update(s.drop_last(), k, b);
        assert(s.last().id != b.id);
        assert(seq_to_map(t) == seq_to_map(s.drop_last()).insert(b.id, bus_model(b)).insert(
            s.last().id,
            bus_model(s.last()),
        ));
        assert(seq_to_map(s.drop_last()).insert(b.id, bus_model(b)).insert(
            s.last().id,
            bus_model(s.last()),
        ) =~= seq_to_map(s).insert(b.id, bus_model(b)));
    }
}

proof fn lemma_seq_to_map_len(s: Seq<Bus>)
    requires
        distinct_ids(s),
    ensures
        seq_to_map(s).dom().finite(),
        seq_to_map(s).dom().len() == s.len(),
    decreases s.len(),
{
    if s.len() > 0 {
        lemma_seq_to_map_len(s.drop_last());
        lemma_seq_to_map_contains(s.drop_last(), s.last().id);
        assert(forall|i: int|
            0 <= i < s.drop_last().len() ==> s.drop_last().index(i) == s.index(i));
        assert(!seq_to_map(s.drop_last()).dom().contains(s.last().id));
    }
}

/// The shared store: the three process-wide parameters and the registry of
/// all buses seen so far.
pub struct SimState {
    balance: i32,
    speed: u32,
    refresh_rate: u64,
    buses: Vec<Bus>,
}

impl View for SimState {
    type V = StateModel;

    closed spec fn view(&self) -> StateModel {
        StateModel {
            balance: self.balance as int,
            speed: self.speed as int,
            refresh_rate: self.refresh_rate as int,
            buses: seq_to_map(self.buses@),
        }
    }
}

impl SimState {
    /// Identifiers are unique and every level is within range; kept at every
    /// observable point.
    #[verifier::type_invariant]
    spec fn wf_state(self) -> bool {
        &&& distinct_ids(self.buses@)
        &&& levels_in_range(self.buses@)
    }

    /// A fresh store: balance 0, speed 1, refresh rate 20, no buses.
    pub fn new() -> (s: SimState)
        ensures
            s@ == initial_state(),
    {
        let s = SimState { balance: 0, speed: 1, refresh_rate: 20, buses: Vec::new() };
        proof {
            assert(s@ =~= initial_state());
        }
        s
    }

    /// Index of the bus under `id`, if it has been seen.
    fn find_bus(&self, id: u128) -> (r: Option<usize>)
        ensures
            match r {
                Some(k) => k < self.buses@.len() && self.buses@.index(k as int).id == id
                    && self@.buses.dom().contains(id),
                None => !self@.buses.dom().contains(id),
            },
    {
        proof {
            lemma_seq_to_map_contains(self.buses@, id);
        }
        let n = self.buses.len();
        let mut k: usize = 0;
        while k < n
            invariant
                n == self.buses@.len(),
                k <= n,
                forall|i: int| 0 <= i < k ==> self.buses@.index(i).id != id,
            decreases n - k,
        {
            if self.buses[k].id == id {
                proof {
                    lemma_seq_to_map_contains(self.buses@, id);
                }
                return Some(k);
            }
            k = k + 1;
        }
        proof {
            lemma_seq_to_map_contains(self.buses@, id);
        }
        None
    }

    /// Replace the entry at `k`, keeping its identifier. The registry is
    /// swapped out and back so that the invariant stays provable across the
    /// write, which may unwind.
    fn store_bus(&mut self, k: usize, nb: Bus)
        requires
            k < old(self).buses@.len(),
            old(self).buses@.index(k as int).id == nb.id,
            nb.percent <= 1000,
        ensures
            final(self).buses@ == old(self).buses@.update(k as int, nb),
            final(self).balance == old(self).balance,
            final(self).speed == old(self).speed,
            final(self).refresh_rate == old(self).refresh_rate,
    {
        proof {
            use_type_invariant(&*self);
            assert(forall|i: int|
                0 <= i < self.buses@.len() ==> self.buses@.update(k as int, nb).index(i).id
                    == self.buses@.index(i).id);
            assert(distinct_ids(self.buses@.update(k as int, nb)));
        }
        let mut registry: Vec<Bus> = Vec::new();
        std::mem::swap(&mut registry, &mut self.buses);
        registry[k] = nb;
        std::mem::swap(&mut registry, &mut self.buses);
    }

    /// Append a bus whose identifier the registry does not hold yet.
    fn push_bus(&mut self, nb: Bus)
        requires
            !old(self)@.buses.dom().contains(nb.id),
            nb.percent <= 1000,
        ensures
            final(self).buses@ == old(self).buses@.push(nb),
            final(self).balance == old(self).balance,
            final(self).speed == old(self).speed,
            final(self).refresh_rate == old(self).refresh_rate,
    {
        proof {
            use_type_invariant(&*self);
            lemma_seq_to_map_contains(self.buses@, nb.id);
        }
        let mut registry: Vec<Bus> = Vec::new();
        std::mem::swap(&mut registry, &mut self.buses);
        registry.push(nb);
        std::mem::swap(&mut registry, &mut self.buses);
    }

    /// One tick step on a single level: advance by `speed` in the direction
    /// of `increasing`, clamping exactly to 0 or 1000 and flipping the
    /// direction at the boundary.
    pub fn advance(current: u32, speed: u32, increasing: bool) -> (r: (u32, bool))
        requires
            current <= 1000,
        ensures
            r.0 as int == tick_value(current as int, speed as int, increasing),
            r.1 == tick_dir(current as int, speed as int, increasing),
            r.0 <= 1000,
    {
        if increasing {
            if speed >= 1000 - current {
                (1000, false)
            } else {
                (current + speed, true)
            }
        } else {
            if current < speed {
                (0, true)
            } else {
                (current - speed, false)
            }
        }
    }

    /// One tick of the bus under `id`, by the tick process that currently
    /// holds direction flag `increasing`. Creates the bus (level 0, active)
    /// if it is unseen, advances its level by the current speed when it is
    /// active, and leaves it untouched when it is inactive. Returns the
    /// direction flag the tick process holds afterwards.
    pub fn tick_bus(&mut self, id: u128, increasing: bool) -> (now_increasing: bool)
        ensures
            final(self)@ == apply_op(old(self)@, Op::Tick { id, inc: increasing }),
            now_increasing == tick_direction(old(self)@, id, increasing),
    {
        proof {
            use_type_invariant(&*self);
        }
        let speed = self.speed;
        match self.find_bus(id) {
            Some(k) => {
                let bus = self.buses[k];
                proof {
                    lemma_seq_to_map_at(self.buses@, k as int);
                }
                if !bus.is_active {
                    proof {
                        assert(old(self)@.buses.insert(id, bus_model(bus)) =~= old(self)@.buses);
                        assert(self@ =~= apply_op(old(self)@, Op::Tick { id, inc: increasing }));
                    }
                    increasing
                } else {
                    let r = Self::advance(bus.percent, speed, increasing);
                    let nb = Bus { id, percent: r.0, is_active: true };
                    proof {
                        lemma_seq_to_map_update(self.buses@, k as int, nb);
                    }
                    self.store_bus(k, nb);
                    proof {
                        assert(self@ =~= apply_op(old(self)@, Op::Tick { id, inc: increasing }));
                    }
                    r.1
                }
            },
            None => {
                let r = Self::advance(0, speed, increasing);
                let nb = Bus { id, percent: r.0, is_active: true };
                proof {
                    lemma_seq_to_map_push(self.buses@, nb);
                }
                self.push_bus(nb);
                proof {
                    assert(self@ =~= apply_op(old(self)@, Op::Tick { id, inc: increasing }));
                }
                r.1
            },
        }
    }

    /// Flip the active flag of the bus under `id`, creating it first (level
    /// 0, inactive) if it is unseen — so a first toggle yields an active bus
    /// at level 0.
    pub fn toggle_bus(&mut self, id: u128)
        ensures
            final(self)@ == apply_op(old(self)@, Op::Toggle { id }),
    {
        proof {
            use_type_invariant(&*self);
        }
        match self.find_bus(id) {
            Some(k) => {
                let bus = self.buses[k];
                let nb = Bus { id, percent: bus.percent, is_active: !bus.is_active };
                proof {
                    lemma_seq_to_map_at(self.buses@, k as int);
                    lemma_seq_to_map_update(self.buses@, k as int, nb);
                }
                self.store_bus(k, nb);
                proof {
                    assert(self@ =~= apply_op(old(self)@, Op::Toggle { id }));
                }
            },
            None => {
                let nb = Bus { id, percent: 0, is_active: true };
                proof {
                    lemma_seq_to_map_push(self.buses@, nb);
                }
                self.push_bus(nb);
                proof {
                    assert(self@ =~= apply_op(old(self)@, Op::Toggle { id }));
                }
            },
        }
    }

    /// Overwrite the process-wide tick step size, unconditionally; nothing
    /// else changes. A speed of 0 freezes every bus without deactivating it.
    pub fn update_simulation_speed(&mut self, speed: u32)
        ensures
            final(self)@ == apply_op(old(self)@, Op::SetSpeed { speed: speed as int }),
    {
        proof {
            use_type_invariant(&*self);
        }
        self.speed = speed;
        proof {
            assert(self@ =~= apply_op(old(self)@, Op::SetSpeed { speed: speed as int }));
        }
    }

    /// Overwrite the advisory refresh rate, unconditionally; nothing else
    /// changes. The tick cadence does not depend on it.
    pub fn update_refresh_rate(&mut self, refresh_rate: u64)
        ensures
            final(self)@ == apply_op(
                old(self)@,
                Op::SetRefreshRate { rate: refresh_rate as int },
            ),
    {
        proof {
            use_type_invariant(&*self);
        }
        self.refresh_rate = refresh_rate;
        proof {
            assert(self@ =~= apply_op(
                old(self)@,
                Op::SetRefreshRate { rate: refresh_rate as int },
            ));
        }
    }

    /// A deep copy of the whole store: an immutable snapshot with exactly
    /// the same abstract value, for external readers to serialize.
    pub fn get_global_state(&self) -> (snapshot: SimState)
        ensures
            snapshot@ == self@,
    {
        proof {
            use_type_invariant(&*self);
        }
        let n = self.buses.len();
        let mut copies: Vec<Bus> = Vec::new();
        let mut k: usize = 0;
        while k < n
            invariant
                n == self.buses@.len(),
                k <= n,
                distinct_ids(self.buses@),
                levels_in_range(self.buses@),
                copies@ == self.buses@.subrange(0, k as int),
            decreases n - k,
        {
            let b = self.buses[k];
            copies.push(b);
            proof {
                assert(copies@ =~= self.buses@.subrange(0, k as int + 1));
            }
            k = k + 1;
        }
        proof {
            assert(copies@ =~= self.buses@);
        }
        SimState {
            balance: self.balance,
            speed: self.speed,
            refresh_rate: self.refresh_rate,
            buses: copies,
        }
    }

    /// The global balance counter. No operation of this core mutates it.
    pub fn balance(&self) -> (r: i32)
        ensures
            r as int == self@.balance,
    {
        self.balance
    }

    /// The process-wide per-tick step size.
    pub fn speed(&self) -> (r: u32)
        ensures
            r as int == self@.speed,
    {
        self.speed
    }

    /// The advisory sampling interval for external readers.
    pub fn refresh_rate(&self) -> (r: u64)
        ensures
            r as int == self@.refresh_rate,
    {
        self.refresh_rate
    }

    /// The bus under `id`, if it has been seen at all.
    pub fn get_bus(&self, id: u128) -> (r: Option<Bus>)
        ensures
            match r {
                Some(b) => self@.buses.dom().contains(id) && b.id == id && bus_model(b)
                    == self@.buses.index(id),
                None => !self@.buses.dom().contains(id),
            },
    {
        proof {
            use_type_invariant(&*self);
        }
        match self.find_bus(id) {
            Some(k) => {
                proof {
                    lemma_seq_to_map_at(self.buses@, k as int);
                }
                Some(self.buses[k])
            },
            None => None,
        }
    }

    /// How many buses have been seen so far.
    pub fn bus_count(&self) -> (n: usize)
        ensures
            n == self@.buses.dom().len(),
    {
        proof {
            use_type_invariant(&*self);
            lemma_seq_to_map_len(self.buses@);
        }
        self.buses.len()
    }

    /// The registry itself, one entry per seen identifier, for a reader to
    /// walk — each entry agrees with the abstract map.
    pub fn buses(&self) -> (r: &Vec<Bus>)
        ensures
            r@.len() == self@.buses.dom().len(),
            forall|i: int|
                0 <= i < r@.len() ==> self@.buses.dom().contains((#[trigger] r@.index(i)).id)
                    && self@.buses.index(r@.index(i).id) == bus_model(r@.index(i)),
            forall|i: int, j: int| 0 <= i < j < r@.len() ==> r@.index(i).id != r@.index(j).id,
    {
        proof {
            use_type_invariant(&*self);
            lemma_seq_to_map_len(self.buses@);
            assert forall|i: int| 0 <= i < self.buses@.len() implies seq_to_map(
                self.buses@,
            ).dom().contains((#[trigger] self.buses@.index(i)).id) && seq_to_map(
                self.buses@,
            ).index(self.buses@.index(i).id) == bus_model(self.buses@.index(i)) by {
                lemma_seq_to_map_at(self.buses@, i);
            }
        }
        &self.buses
    }
}

} // verus!
