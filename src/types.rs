use crate::random::{Random, RngState};
use vstd::prelude::*;

verus! {

/// Participants are identified by a plain account number.
pub type Address = u64;

/// Identifier of the first ticket ever handed out.
pub const FIRST_TICKET_ID: u64 = 1;

/// An inclusive, contiguous block of ticket ids owned by one address.
#[derive(Clone, Copy, Debug, PartialEq, Eq, Structural)]
pub struct TicketRange {
    pub first_id: u64,
    pub last_id: u64,
}

/// The reverse view of a range, stored under the range's first ticket id.
#[derive(Clone, Copy, Debug, PartialEq, Eq, Structural)]
pub struct TicketBatch {
    pub address: Address,
    pub nr_tickets: u64,
}

/// Progress of the launch through its one-way stages.
#[derive(Clone, Copy, Debug, PartialEq, Eq, Structural)]
pub struct Flags {
    pub were_tickets_filtered: bool,
    pub were_winners_selected: bool,
    pub has_winner_selection_process_started: bool,
    pub were_guaranteed_tickets_distributed: bool,
}

/// Outcome of one invocation of a resumable operation.
#[derive(Clone, Copy, Debug, PartialEq, Eq, Structural)]
pub enum OperationCompletionStatus {
    Completed,
    InterruptedBeforeOutOfGas,
}

/// Counters shared by the two phases of the guaranteed-ticket allocation.
#[derive(Clone, Copy, Debug, PartialEq, Eq, Structural)]
pub struct GuaranteedSelectionState {
    /// Promised guaranteed slots that still have to be handed out at random.
    pub leftover_tickets: u64,
    /// Winners added on top of the base random draw.
    pub total_additional_winning_tickets: u64,
    /// How far the leftover draw has moved past the base draw's positions.
    pub leftover_ticket_pos_offset: u64,
}

/// The checkpoint of the resumable operation in progress, if any.
pub enum OngoingOperation {
    Idle,
    FilterTickets { first_ticket_id_in_batch: u64, nr_removed: u64 },
    SelectWinners { rng: Random, ticket_position: u64 },
    SelectGuaranteedTickets { op: GuaranteedSelectionState },
    DistributeLeftoverTickets { rng: Random, op: GuaranteedSelectionState },
}

/// The mathematical value of a checkpoint.
pub enum OperationState {
    Idle,
    FilterTickets { first_ticket_id_in_batch: u64, nr_removed: u64 },
    SelectWinners { rng: RngState, ticket_position: u64 },
    SelectGuaranteedTickets { op: GuaranteedSelectionState },
    DistributeLeftoverTickets { rng: RngState, op: GuaranteedSelectionState },
}

impl View for OngoingOperation {
    type V = OperationState;

    open spec fn view(&self) -> OperationState {
        match self {
            OngoingOperation::Idle => OperationState::Idle,
            OngoingOperation::FilterTickets { first_ticket_id_in_batch, nr_removed } =>
                OperationState::FilterTickets {
                    first_ticket_id_in_batch: *first_ticket_id_in_batch,
                    nr_removed: *nr_removed,
                },
            OngoingOperation::SelectWinners { rng, ticket_position } =>
                OperationState::SelectWinners { rng: rng@, ticket_position: *ticket_position },
            OngoingOperation::SelectGuaranteedTickets { op } =>
                OperationState::SelectGuaranteedTickets { op: *op },
            OngoingOperation::DistributeLeftoverTickets { rng, op } =>
                OperationState::DistributeLeftoverTickets { rng: rng@, op: *op },
        }
    }
}

impl OngoingOperation {
    pub open spec fn rng_wf(&self) -> bool {
        match self {
            OngoingOperation::SelectWinners { rng, .. } => rng.wf(),
            OngoingOperation::DistributeLeftoverTickets { rng, .. } => rng.wf(),
            _ => true,
        }
    }
}

/// Why a request was rejected. A rejected request changes nothing.
#[derive(Clone, Copy, Debug, PartialEq, Eq, Structural)]
pub enum LaunchpadError {
    DuplicateEntry,
    InvalidTicketCount,
    TicketIdsExhausted,
    AddTicketsPeriodPassed,
    SelectionAlreadyStarted,
    UserBlacklisted,
    TooManyTicketsConfirmed,
    TooManyGuaranteedTickets,
    TicketsAlreadyFiltered,
    MustFilterTicketsFirst,
    WinnersAlreadySelected,
    MustSelectWinnersFirst,
    GuaranteedTicketsAlreadyDistributed,
    NotInClaimPeriod,
    AlreadyClaimed,
    NoTickets,
}

/// What a participant is owed when claiming.
#[derive(Clone, Copy, Debug, PartialEq, Eq, Structural)]
pub struct ClaimResult {
    /// Won tickets, paid out in launchpad tokens.
    pub nr_redeemable_tickets: u64,
    /// Confirmed tickets that did not win, whose price is refunded.
    pub nr_tickets_to_refund: u64,
}

} // verus!
