//! What an operation asks of the host: events to publish and tokens to move.

use vstd::prelude::*;
use crate::address::Address;
use crate::vesting::{Schedule, Vesting};

verus! {

/// An event that the host publishes.
#[derive(Debug, PartialEq, Eq)]
pub enum Event {
    /// `admin` was given or lost the administrator status.
    AdminAccessSet { admin: Address, enabled: bool },
    /// The schedule `vesting` was created under `id`.
    VestingCreated { id: u64, recipient: Address, vesting: Vesting },
    /// `caller` claimed `amount` of the schedule `id`.
    Claimed { id: u64, caller: Address, amount: i128 },
    /// The schedule `id` was revoked; `forfeited` of it will never vest.
    VestingRevoked { id: u64, recipient: Address, forfeited: i128, vesting: Vesting },
    /// `caller` withdrew `amount` of the managed token.
    AdminWithdrawn { caller: Address, amount: i128 },
    /// `caller` withdrew `amount` of another token.
    AdminWithdrawnOther { caller: Address, amount: i128 },
}

/// The mathematical value of an [`Event`].
pub enum EventView {
    AdminAccessSet { admin: Seq<u8>, enabled: bool },
    VestingCreated { id: u64, recipient: Seq<u8>, vesting: Schedule },
    Claimed { id: u64, caller: Seq<u8>, amount: i128 },
    VestingRevoked { id: u64, recipient: Seq<u8>, forfeited: i128, vesting: Schedule },
    AdminWithdrawn { caller: Seq<u8>, amount: i128 },
    AdminWithdrawnOther { caller: Seq<u8>, amount: i128 },
}

impl View for Event {
    type V = EventView;

    open spec fn view(&self) -> EventView {
        match *self {
            Event::AdminAccessSet { admin, enabled } => EventView::AdminAccessSet {
                admin: admin@,
                enabled,
            },
            Event::VestingCreated { id, recipient, vesting } => EventView::VestingCreated {
                id,
                recipient: recipient@,
                vesting: vesting@,
            },
            Event::Claimed { id, caller, amount } => EventView::Claimed {
                id,
                caller: caller@,
                amount,
            },
            Event::VestingRevoked { id, recipient, forfeited, vesting } => EventView::VestingRevoked {
                id,
                recipient: recipient@,
                forfeited,
                vesting: vesting@,
            },
            Event::AdminWithdrawn { caller, amount } => EventView::AdminWithdrawn {
                caller: caller@,
                amount,
            },
            Event::AdminWithdrawnOther { caller, amount } => EventView::AdminWithdrawnOther {
                caller: caller@,
                amount,
            },
        }
    }
}

/// One thing that the host does for an operation that succeeded. The host
/// performs the actions of an operation in their order, and undoes the
/// operation if one of them fails.
#[derive(Debug, PartialEq, Eq)]
pub enum Action {
    /// Publish the event.
    Emit(Event),
    /// Move `amount` of the managed token from `from` to the manager, out
    /// of what `from` has approved.
    Pull { from: Address, amount: i128 },
    /// Move `amount` of `token` from the manager to `to`.
    Pay { token: Address, to: Address, amount: i128 },
}

/// The mathematical value of an [`Action`].
pub enum ActionView {
    Emit(EventView),
    Pull { from: Seq<u8>, amount: i128 },
    Pay { token: Seq<u8>, to: Seq<u8>, amount: i128 },
}

impl View for Action {
    type V = ActionView;

    open spec fn view(&self) -> ActionView {
        match *self {
            Action::Emit(event) => ActionView::Emit(event@),
            Action::Pull { from, amount } => ActionView::Pull { from: from@, amount },
            Action::Pay { token, to, amount } => ActionView::Pay { token: token@, to: to@, amount },
        }
    }
}

/// The values of a list of actions, in the order of the list.
pub open spec fn actions_of(list: Seq<Action>) -> Seq<ActionView> {
    list.map_values(|a: Action| a@)
}

} // verus!
