use crate::action::ShipAction;
use crate::error::SimError;
use crate::periodic::PeriodicModel;
use crate::periodic::PeriodicMover;
use crate::ship_ai::AiModel;
use crate::ship_ai::ShipAI;
use vstd::prelude::*;

verus! {

/// The symbol of a ship that never moves.
pub const STATIONARY_SYMBOL: char = 'P';

/// The symbol of a ship that moves at a fixed interval.
pub const PERIODIC_SYMBOL: char = 'F';

/// The symbol of a ship that works through a list of actions.
pub const ACTION_LIST_SYMBOL: char = 'B';

/// How a ship decides, as the contracts see it.
pub enum BehaviorModel {
    /// Never asks for anything.
    Stationary,
    /// Asks for a move one row down at a fixed interval.
    Periodic(PeriodicModel),
    /// Works through a list of actions at a fixed interval.
    ActionList(AiModel),
}

impl BehaviorModel {
    /// Holds of every behavior: its counters are well formed.
    pub open spec fn wf(self) -> bool {
        match self {
            BehaviorModel::Stationary => true,
            BehaviorModel::Periodic(m) => m.wf(),
            BehaviorModel::ActionList(m) => m.wf(),
        }
    }

    /// What the next decision is.
    pub open spec fn emitted(self) -> ShipAction {
        match self {
            BehaviorModel::Stationary => ShipAction::Stay,
            BehaviorModel::Periodic(m) => m.emitted(),
            BehaviorModel::ActionList(m) => m.emitted(),
        }
    }

    /// The state after the next decision.
    pub open spec fn advanced(self) -> BehaviorModel {
        match self {
            BehaviorModel::Stationary => BehaviorModel::Stationary,
            BehaviorModel::Periodic(m) => BehaviorModel::Periodic(m.advanced()),
            BehaviorModel::ActionList(m) => BehaviorModel::ActionList(m.advanced()),
        }
    }
}

/// A ship, as the contracts see it.
pub struct ShipModel {
    /// What drives the ship.
    pub behavior: BehaviorModel,
    /// The character the ship is drawn with.
    pub symbol: char,
}

impl ShipModel {
    /// Holds of every ship: its behavior is well formed.
    pub open spec fn wf(self) -> bool {
        self.behavior.wf()
    }

    /// What the ship asks for at the next tick.
    pub open spec fn emitted(self) -> ShipAction {
        self.behavior.emitted()
    }

    /// The ship after it has decided once more. Only its counters change.
    pub open spec fn advanced(self) -> ShipModel {
        ShipModel { behavior: self.behavior.advanced(), ..self }
    }
}

/// The kinds of behavior a ship can have. The tick loop never looks at which
/// one it holds: it only calls `Ship::decide`.
pub enum Behavior {
    /// Never asks for anything.
    Stationary,
    /// Asks for a move one row down at a fixed interval.
    Periodic(PeriodicMover),
    /// Works through a list of actions at a fixed interval.
    ActionList(ShipAI),
}

impl View for Behavior {
    type V = BehaviorModel;

    open spec fn view(&self) -> BehaviorModel {
        match self {
            Behavior::Stationary => BehaviorModel::Stationary,
            Behavior::Periodic(mover) => BehaviorModel::Periodic(mover@),
            Behavior::ActionList(ai) => BehaviorModel::ActionList(ai@),
        }
    }
}

impl Behavior {
    /// Advances the behavior's own counters by one tick and says what it asks for.
    pub fn decide(&mut self) -> (action: ShipAction)
        ensures
            old(self)@.wf(),
            final(self)@.wf(),
            final(self)@ == old(self)@.advanced(),
            action == old(self)@.emitted(),
    {
        match self {
            Behavior::Stationary => ShipAction::Stay,
            Behavior::Periodic(mover) => mover.tick(),
            Behavior::ActionList(ai) => ai.tick(),
        }
    }
}

/// What to build a ship from.
#[allow(inconsistent_fields)]
pub enum ShipKind {
    /// A ship that never moves.
    Stationary,
    /// A ship that moves one row down every `interval` ticks.
    PeriodicMover { interval: u32 },
    /// A ship that takes the next of `actions` every `interval` ticks.
    ActionListAI { actions: Vec<ShipAction>, interval: u64 },
}

impl ShipKind {
    /// Whether a ship can be built from this description: its interval, if it
    /// has one, is not zero.
    pub open spec fn valid(self) -> bool {
        match self {
            ShipKind::Stationary => true,
            ShipKind::PeriodicMover { interval } => interval > 0,
            ShipKind::ActionListAI { actions, interval } => interval > 0,
        }
    }

    /// The character that stands for a ship of this kind on the board.
    pub open spec fn symbol(self) -> char {
        match self {
            ShipKind::Stationary => STATIONARY_SYMBOL,
            ShipKind::PeriodicMover { interval } => PERIODIC_SYMBOL,
            ShipKind::ActionListAI { actions, interval } => ACTION_LIST_SYMBOL,
        }
    }

    /// The ship that is built from this description, before its first tick.
    pub open spec fn fresh(self) -> ShipModel {
        ShipModel {
            behavior: match self {
                ShipKind::Stationary => BehaviorModel::Stationary,
                ShipKind::PeriodicMover { interval } => BehaviorModel::Periodic(
                    PeriodicModel::fresh(interval as nat),
                ),
                ShipKind::ActionListAI { actions, interval } => BehaviorModel::ActionList(
                    AiModel::fresh(interval as nat, actions@),
                ),
            },
            symbol: self.symbol(),
        }
    }
}

/// One ship: what drives it, and the character it is drawn with.
pub struct Ship {
    behavior: Behavior,
    symbol: char,
}

impl View for Ship {
    type V = ShipModel;

    closed spec fn view(&self) -> ShipModel {
        ShipModel { behavior: self.behavior@, symbol: self.symbol }
    }
}

impl Ship {
    /// Builds a ship of the given kind. A kind with an interval of zero is
    /// refused, so that no such ship ever reaches a board.
    pub fn build(kind: ShipKind) -> (r: Result<Ship, SimError>)
        ensures
            match r {
                Ok(ship) => kind.valid() && ship@ == kind.fresh() && ship@.wf(),
                Err(e) => !kind.valid() && e == SimError::InvalidConfiguration,
            },
    {
        match kind {
            ShipKind::Stationary => Ok(Ship { behavior: Behavior::Stationary, symbol: STATIONARY_SYMBOL }),
            ShipKind::PeriodicMover { interval } => match PeriodicMover::new(interval) {
                Ok(mover) => Ok(Ship { behavior: Behavior::Periodic(mover), symbol: PERIODIC_SYMBOL }),
                Err(e) => Err(e),
            },
            ShipKind::ActionListAI { actions, interval } => match ShipAI::with_actions(interval, actions) {
                Ok(ai) => Ok(Ship { behavior: Behavior::ActionList(ai), symbol: ACTION_LIST_SYMBOL }),
                Err(e) => Err(e),
            },
        }
    }

    /// The character the ship is drawn with.
    pub fn symbol(&self) -> (c: char)
        ensures
            c == self@.symbol,
    {
        self.symbol
    }

    /// Lets the ship decide for the coming tick: its counters advance, and the
    /// result says what it asks for. Nothing but the ship itself is touched.
    pub fn decide(&mut self) -> (action: ShipAction)
        ensures
            old(self)@.wf(),
            final(self)@.wf(),
            final(self)@ == old(self)@.advanced(),
            action == old(self)@.emitted(),
    {
        self.behavior.decide()
    }
}

} // verus!
