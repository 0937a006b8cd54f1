use crate::action::ShipAction;
use crate::arith::lemma_succ_div;
use crate::arith::lemma_succ_mod;
use crate::error::SimError;
use vstd::arithmetic::div_mod::lemma_div_basics;
use vstd::arithmetic::div_mod::lemma_div_pos_is_pos;
use vstd::arithmetic::div_mod::lemma_mod_bound;
use vstd::arithmetic::div_mod::lemma_small_mod;
use vstd::prelude::*;

verus! {

/// The state of an action-list driver, as the contracts see it.
pub struct AiModel {
    /// Calls since the counter last wrapped.
    pub current_tick: nat,
    /// The counter wraps every `tick_interval` calls.
    pub tick_interval: nat,
    /// The actions that are emitted in turn, over and over.
    pub actions: Seq<ShipAction>,
    /// Index in `actions` of the action that is emitted next.
    pub cursor: nat,
}

impl AiModel {
    /// A freshly built driver.
    pub open spec fn fresh(tick_interval: nat, actions: Seq<ShipAction>) -> AiModel {
        AiModel { current_tick: 0, tick_interval, actions, cursor: 0 }
    }

    /// Holds of every driver: the interval is not zero, the counter is below
    /// it, and the cursor points into the list, or to its start if the list
    /// is empty.
    pub open spec fn wf(self) -> bool {
        &&& self.tick_interval >= 1
        &&& self.current_tick < self.tick_interval
        &&& self.actions.len() == 0 ==> self.cursor == 0
        &&& self.actions.len() > 0 ==> self.cursor < self.actions.len()
    }

    /// Whether the counter wraps to zero at the next call.
    pub open spec fn due(self) -> bool {
        (self.current_tick + 1) % self.tick_interval == 0
    }

    /// What the next call returns: the action under the cursor when the
    /// counter wraps and there is one, otherwise `ShipAction::Stay`.
    pub open spec fn emitted(self) -> ShipAction {
        if self.due() && self.actions.len() > 0 {
            self.actions[self.cursor as int]
        } else {
            ShipAction::Stay
        }
    }

    /// The state after the next call: the counter has advanced, and the cursor
    /// too if an action was emitted.
    pub open spec fn advanced(self) -> AiModel {
        AiModel {
            current_tick: (self.current_tick + 1) % self.tick_interval,
            cursor: if self.due() && self.actions.len() > 0 {
                (self.cursor + 1) % self.actions.len()
            } else {
                self.cursor
            },
            ..self
        }
    }

    /// The state after `calls` calls.
    pub open spec fn advanced_by(self, calls: nat) -> AiModel
        decreases calls,
    {
        if calls == 0 {
            self
        } else {
            self.advanced_by((calls - 1) as nat).advanced()
        }
    }
}

/// Where a freshly built driver stands after `calls` calls: the counter at
/// the remainder of `calls` by the interval, the cursor as many actions on as
/// the counter has wrapped, round the list.
pub proof fn lemma_ai_state(tick_interval: nat, actions: Seq<ShipAction>, calls: nat)
    requires
        tick_interval >= 1,
    ensures
        ({
            let ai = AiModel::fresh(tick_interval, actions).advanced_by(calls);
            &&& ai.wf()
            &&& ai.tick_interval == tick_interval
            &&& ai.actions == actions
            &&& ai.current_tick == calls % tick_interval
            &&& ai.cursor == if actions.len() == 0 {
                0
            } else {
                (calls / tick_interval) % actions.len()
            }
        }),
    decreases calls,
{
    let n = tick_interval as int;
    if calls == 0 {
        lemma_div_basics(n);
        if actions.len() > 0 {
            lemma_small_mod(0, actions.len());
        }
    } else {
        lemma_ai_state(tick_interval, actions, (calls - 1) as nat);
        lemma_succ_mod(calls - 1, n);
        lemma_succ_div(calls - 1, n);
        lemma_mod_bound(calls as int, n);
        if actions.len() > 0 {
            lemma_div_pos_is_pos(calls - 1, n);
            lemma_succ_mod((calls - 1) / n, actions.len() as int);
            lemma_mod_bound((calls as int) / n, actions.len() as int);
        }
    }
}

/// A freshly built driver emits an action at every call whose number, counted
/// from one, the interval divides, and `ShipAction::Stay` at every other
/// call. The actions come in the order of the list, which starts over when it
/// is exhausted; with an empty list every call gives `ShipAction::Stay`.
pub proof fn lemma_ai_emits_in_turn(tick_interval: nat, actions: Seq<ShipAction>, call: nat)
    requires
        tick_interval >= 1,
        call >= 1,
    ensures
        AiModel::fresh(tick_interval, actions).advanced_by((call - 1) as nat).emitted() == if call
            % tick_interval == 0 && actions.len() > 0 {
            actions[(call / tick_interval - 1) % (actions.len() as int)]
        } else {
            ShipAction::Stay
        },
{
    let n = tick_interval as int;
    lemma_ai_state(tick_interval, actions, (call - 1) as nat);
    lemma_succ_mod(call - 1, n);
    lemma_succ_div(call - 1, n);
}

/// Drives a ship through a fixed list of actions, one every `tick_interval`
/// calls of `tick`, starting over when the list is exhausted.
pub struct ShipAI {
    current_tick: u64,
    tick_interval: u64,
    actions: Vec<ShipAction>,
    cursor: usize,
}

impl View for ShipAI {
    type V = AiModel;

    closed spec fn view(&self) -> AiModel {
        AiModel {
            current_tick: self.current_tick as nat,
            tick_interval: self.tick_interval as nat,
            actions: self.actions@,
            cursor: self.cursor as nat,
        }
    }
}

impl ShipAI {
    #[verifier::type_invariant]
    closed spec fn inv(&self) -> bool {
        self@.wf()
    }

    /// Builds a driver that asks for one column to the right every
    /// `tick_interval` calls. An interval of zero is refused.
    pub fn new(tick_interval: u64) -> (r: Result<ShipAI, SimError>)
        ensures
            match r {
                Ok(ai) => tick_interval > 0 && ai@ == AiModel::fresh(
                    tick_interval as nat,
                    seq![ShipAction::Move(1, 0)],
                ),
                Err(e) => tick_interval == 0 && e == SimError::InvalidConfiguration,
            },
    {
        let mut actions: Vec<ShipAction> = Vec::new();
        actions.push(ShipAction::Move(1, 0));
        assert(actions@ =~= seq![ShipAction::Move(1, 0)]);
        ShipAI::with_actions(tick_interval, actions)
    }

    /// Builds a driver that has not ticked yet and that will go through
    /// `actions`, one every `tick_interval` calls. An interval of zero is
    /// refused.
    pub fn with_actions(tick_interval: u64, actions: Vec<ShipAction>) -> (r: Result<ShipAI, SimError>)
        ensures
            match r {
                Ok(ai) => tick_interval > 0 && ai@ == AiModel::fresh(tick_interval as nat, actions@),
                Err(e) => tick_interval == 0 && e == SimError::InvalidConfiguration,
            },
    {
        if tick_interval == 0 {
            Err(SimError::InvalidConfiguration)
        } else {
            Ok(ShipAI { current_tick: 0, tick_interval, actions, cursor: 0 })
        }
    }

    /// Advances the counter by one call and says what the ship asks for.
    pub fn tick(&mut self) -> (action: ShipAction)
        ensures
            old(self)@.wf(),
            final(self)@.wf(),
            final(self)@ == old(self)@.advanced(),
            action == old(self)@.emitted(),
    {
        proof {
            use_type_invariant(&*self);
        }
        self.current_tick = (self.current_tick + 1) % self.tick_interval;
        if self.current_tick == 0 && self.actions.len() > 0 {
            let action = self.actions[self.cursor];
            self.cursor = (self.cursor + 1) % self.actions.len();
            action
        } else {
            ShipAction::Stay
        }
    }

    /// The number of calls from one emitted action to the next.
    pub fn tick_interval(&self) -> (n: u64)
        ensures
            n == self@.tick_interval,
    {
        self.tick_interval
    }

    /// The number of calls since the counter last wrapped.
    pub fn current_tick(&self) -> (n: u64)
        ensures
            n == self@.current_tick,
    {
        self.current_tick
    }
}

} // verus!
