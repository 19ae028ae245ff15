//! A resumable ticket-lottery engine for token launches: ticket registry and compaction,
//! a seeded partial Fisher-Yates draw, and guaranteed-ticket allocation.

pub mod random;
pub mod types;
pub mod state;
pub mod layout;
pub mod registry;
pub mod filtering;
pub mod selection;
pub mod guaranteed;
pub mod claims;
pub mod laws;
pub mod views;

pub use crate::random::Random;
pub use crate::state::Launchpad;
pub use crate::types::{
    Address, ClaimResult, GuaranteedSelectionState, LaunchpadError, OperationCompletionStatus,
    TicketBatch, TicketRange,
};
