use crate::action::ShipAction;
use crate::arith::lemma_succ_div;
use crate::arith::lemma_succ_mod;
use crate::error::SimError;
use vstd::arithmetic::div_mod::lemma_div_basics;
use vstd::arithmetic::div_mod::lemma_mod_bound;
use vstd::arithmetic::div_mod::lemma_small_mod;
use vstd::prelude::*;

verus! {

/// The state of a periodic mover, as the contracts see it.
pub struct PeriodicModel {
    /// Calls since the ship last moved.
    pub time_stationary: nat,
    /// The ship moves once every `interval` calls.
    pub interval: nat,
}

impl PeriodicModel {
    /// A freshly built mover.
    pub open spec fn fresh(interval: nat) -> PeriodicModel {
        PeriodicModel { time_stationary: 0, interval }
    }

    /// Holds of every mover: the interval is not zero, and the counter is
    /// below it.
    pub open spec fn wf(self) -> bool {
        self.interval >= 1 && self.time_stationary < self.interval
    }

    /// Whether the counter wraps to zero at the next call.
    pub open spec fn due(self) -> bool {
        (self.time_stationary + 1) % self.interval == 0
    }

    /// What the next call returns: one row down when the counter wraps,
    /// otherwise `ShipAction::Stay`.
    pub open spec fn emitted(self) -> ShipAction {
        if self.due() {
            ShipAction::Move(0, 1)
        } else {
            ShipAction::Stay
        }
    }

    /// The state after the next call.
    pub open spec fn advanced(self) -> PeriodicModel {
        PeriodicModel { time_stationary: (self.time_stationary + 1) % self.interval, ..self }
    }

    /// The state after `calls` calls.
    pub open spec fn advanced_by(self, calls: nat) -> PeriodicModel
        decreases calls,
    {
        if calls == 0 {
            self
        } else {
            self.advanced_by((calls - 1) as nat).advanced()
        }
    }

    /// How many of the next `calls` calls ask for a move.
    pub open spec fn moves_within(self, calls: nat) -> nat
        decreases calls,
    {
        if calls == 0 {
            0
        } else {
            let earlier = self.moves_within((calls - 1) as nat);
            if self.advanced_by((calls - 1) as nat).due() {
                earlier + 1
            } else {
                earlier
            }
        }
    }
}

/// A mover keeps its interval, and after `calls` calls its counter has gone
/// round as often as fits: it stands at the remainder of what it started with
/// plus `calls`.
pub proof fn lemma_periodic_counter(mover: PeriodicModel, calls: nat)
    requires
        mover.wf(),
    ensures
        mover.advanced_by(calls).wf(),
        mover.advanced_by(calls).interval == mover.interval,
        mover.advanced_by(calls).time_stationary == (mover.time_stationary + calls) % mover.interval,
    decreases calls,
{
    if calls == 0 {
        lemma_small_mod(mover.time_stationary, mover.interval);
    } else {
        lemma_periodic_counter(mover, (calls - 1) as nat);
        lemma_succ_mod(mover.time_stationary + calls - 1, mover.interval as int);
        lemma_mod_bound((mover.time_stationary + calls) as int, mover.interval as int);
    }
}

/// A mover built with interval `interval` asks for a move at every call
/// whose number, counted from one, `interval` divides, and stays put at every
/// other call.
pub proof fn lemma_periodic_moves_every_interval(interval: nat, call: nat)
    requires
        interval >= 1,
        call >= 1,
    ensures
        PeriodicModel::fresh(interval).advanced_by((call - 1) as nat).emitted() == if call % interval
            == 0 {
            ShipAction::Move(0, 1)
        } else {
            ShipAction::Stay
        },
{
    lemma_periodic_counter(PeriodicModel::fresh(interval), (call - 1) as nat);
    lemma_succ_mod(call - 1, interval as int);
}

/// Of the first `calls` calls of a mover built with interval `interval`,
/// `calls / interval` ask for a move: exactly one in every `interval`.
pub proof fn lemma_periodic_moves_count(interval: nat, calls: nat)
    requires
        interval >= 1,
    ensures
        PeriodicModel::fresh(interval).moves_within(calls) == calls / interval,
    decreases calls,
{
    if calls == 0 {
        lemma_div_basics(interval as int);
    } else {
        lemma_periodic_moves_count(interval, (calls - 1) as nat);
        lemma_periodic_counter(PeriodicModel::fresh(interval), (calls - 1) as nat);
        lemma_succ_mod(calls - 1, interval as int);
        lemma_succ_div(calls - 1, interval as int);
    }
}

/// A ship's counter that asks for a move one row down every `interval` calls
/// of `tick` and for nothing in between.
pub struct PeriodicMover {
    time_stationary: u32,
    interval: u32,
}

impl View for PeriodicMover {
    type V = PeriodicModel;

    closed spec fn view(&self) -> PeriodicModel {
        PeriodicModel {
            time_stationary: self.time_stationary as nat,
            interval: self.interval as nat,
        }
    }
}

impl PeriodicMover {
    #[verifier::type_invariant]
    closed spec fn inv(&self) -> bool {
        self@.wf()
    }

    /// Builds a mover that has not ticked yet. An interval of zero is refused.
    pub fn new(interval: u32) -> (r: Result<PeriodicMover, SimError>)
        ensures
            match r {
                Ok(mover) => interval > 0 && mover@ == PeriodicModel::fresh(interval as nat),
                Err(e) => interval == 0 && e == SimError::InvalidConfiguration,
            },
    {
        if interval == 0 {
            Err(SimError::InvalidConfiguration)
        } else {
            Ok(PeriodicMover { time_stationary: 0, interval })
        }
    }

    /// Advances the counter by one call and says what the ship asks for.
    pub fn tick(&mut self) -> (action: ShipAction)
        ensures
            old(self)@.wf(),
            final(self)@.wf(),
            final(self)@ == old(self)@.advanced(),
            action == old(self)@.emitted(),
    {
        proof {
            use_type_invariant(&*self);
        }
        self.time_stationary = (self.time_stationary + 1) % self.interval;
        if self.time_stationary == 0 {
            ShipAction::Move(0, 1)
        } else {
            ShipAction::Stay
        }
    }

    /// The number of calls from one move to the next.
    pub fn interval(&self) -> (n: u32)
        ensures
            n == self@.interval,
    {
        self.interval
    }

    /// The number of calls since the ship last moved.
    pub fn time_stationary(&self) -> (n: u32)
        ensures
            n == self@.time_stationary,
    {
        self.time_stationary
    }
}

} // verus!
