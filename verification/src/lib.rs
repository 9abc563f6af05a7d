//! A token vesting engine: an administrator commits balances of one fungible
//! token to recipients, and each balance is released over time by an initial
//! unlock, a cliff and a linear schedule.
//!
//! The engine is a state machine over plain values. The embedding host
//! authenticates callers, reads the clock, moves tokens and publishes events;
//! every operation here takes what the host has read and returns what the
//! host has to do.
//!
//! - [`vesting`] and [`calculator`]: schedules and what has vested of them.
//! - [`admin`] and [`store`]: the administrators and the schedules by id.
//! - [`model`]: the state of a manager and its operations, as mathematics.
//! - [`manager`] and [`batch`]: the manager itself.
//! - [`laws`]: what holds of every state that a manager can reach.
//! - [`factory`]: salts and code for the deployment of managers.
//! - [`harness`]: a property of the calculator for a property tester.

pub mod address;
pub mod error;
pub mod vesting;
pub mod calculator;
pub mod admin;
pub mod store;
pub mod effects;
pub mod model;
pub mod manager;
pub mod batch;
pub mod laws;
pub mod factory;
pub mod harness;

pub use crate::address::Address;
pub use crate::admin::AdminSet;
pub use crate::batch::CreateVestingBatchParams;
pub use crate::effects::{Action, Event};
pub use crate::error::Error;
pub use crate::factory::{Deployment, TokenVestingFactory};
pub use crate::harness::TestManagerContract;
pub use crate::manager::TokenVestingManager;
pub use crate::store::ScheduleStore;
pub use crate::vesting::Vesting;
