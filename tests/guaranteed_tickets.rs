use launchpad::{Address, ClaimResult, GuaranteedSelectionState, Launchpad, OperationCompletionStatus, Random};

const NR_WINNING_TICKETS: u64 = 3;
const MAX_TIER_TICKETS: u64 = 3;
const USER0: Address = 101;
const USER1: Address = 102;
const USER2: Address = 103;
const USER3: Address = 104;
const USER4: Address = 105;

/// A launch with three participants holding 1, 2 and 3 tickets; the last one, at the
/// top tier, is guaranteed one winning ticket.
fn setup(nr_winning_tickets: u64) -> Launchpad {
    let mut lp = Launchpad::new(nr_winning_tickets);
    lp.add_tickets(&vec![(USER0, 1), (USER1, 2), (USER2, MAX_TIER_TICKETS)]).unwrap();
    lp.add_guaranteed_tickets(USER2, 1).unwrap();
    lp
}

/// A seed whose generator makes the given draws `(min, max, wanted)`, in order.
fn seed_for(draws: &[(u64, u64, u64)]) -> Vec<u8> {
    for k in 0u32..1_000_000 {
        let seed = k.to_le_bytes().to_vec();
        let mut rng = Random::from_seed(&seed);
        if draws.iter().all(|&(lo, hi, want)| rng.next_usize_in_range(lo, hi) == want) {
            return seed;
        }
    }
    panic!("no seed makes these draws");
}

fn winners(lp: &Launchpad) -> Vec<u64> {
    (1..=lp.get_total_tickets()).filter(|id| lp.is_winning_ticket(*id)).collect()
}

#[test]
fn init_test() {
    let lp = setup(NR_WINNING_TICKETS);
    assert_eq!(lp.get_total_tickets(), 6);
    assert_eq!(lp.get_nr_winning_tickets(), NR_WINNING_TICKETS);
}

#[test]
fn confirm_all_test() {
    let mut lp = setup(NR_WINNING_TICKETS);
    let participants = [USER0, USER1, USER2];
    for (i, p) in participants.iter().enumerate() {
        lp.confirm_tickets(*p, i as u64 + 1).unwrap();
    }

    assert_eq!(lp.filter_tickets(100), Ok(OperationCompletionStatus::Completed));
    let seed = seed_for(&[(1, 7, 1), (2, 7, 2)]);
    assert_eq!(lp.select_winners(&seed, 100), Ok(OperationCompletionStatus::Completed));

    assert_eq!(winners(&lp), vec![1, 2]);
    assert_eq!(lp.get_number_of_winning_tickets_for_address(USER0), 1);
    assert_eq!(lp.get_number_of_winning_tickets_for_address(USER1), 1);
    assert_eq!(lp.get_number_of_winning_tickets_for_address(USER2), 0);
    assert_eq!(winners(&lp).len() as u64, NR_WINNING_TICKETS - 1);

    assert_eq!(
        lp.distribute_guaranteed_tickets(&seed, 100),
        Ok(OperationCompletionStatus::Completed)
    );

    // third user now has ticket with ID 4 as winning
    assert_eq!(winners(&lp), vec![1, 2, 4]);
    assert_eq!(lp.get_number_of_winning_tickets_for_address(USER0), 1);
    assert_eq!(lp.get_number_of_winning_tickets_for_address(USER1), 1);
    assert_eq!(lp.get_number_of_winning_tickets_for_address(USER2), 1);
    assert_eq!(winners(&lp).len() as u64, NR_WINNING_TICKETS);

    // each user won one ticket and gets back what it paid for the others
    let mut redeemed = 0;
    for (i, p) in participants.iter().enumerate() {
        let claim = lp.claim_launchpad_tokens(*p).unwrap();
        assert_eq!(claim, ClaimResult { nr_redeemable_tickets: 1, nr_tickets_to_refund: i as u64 });
        redeemed += claim.nr_redeemable_tickets;
    }
    assert_eq!(redeemed, 3);
}

#[test]
fn combined_scenario_test() {
    let mut lp = setup(NR_WINNING_TICKETS);
    // add another "whale", guaranteed one ticket, and a small participant
    lp.add_tickets(&vec![(USER3, MAX_TIER_TICKETS), (USER4, 1)]).unwrap();
    lp.add_guaranteed_tickets(USER3, 1).unwrap();

    // user[0] and user[1] will not confirm, so they get filtered
    lp.confirm_tickets(USER2, 3).unwrap();
    lp.confirm_tickets(USER3, 3).unwrap();
    lp.confirm_tickets(USER4, 1).unwrap();

    assert_eq!(lp.filter_tickets(100), Ok(OperationCompletionStatus::Completed));
    let base_seed = seed_for(&[(1, 8, 1)]);
    assert_eq!(lp.select_winners(&base_seed, 100), Ok(OperationCompletionStatus::Completed));

    assert_eq!(winners(&lp), vec![1]);
    assert_eq!(winners(&lp).len() as u64, NR_WINNING_TICKETS - 2);
    assert_eq!(lp.get_nr_users_with_guaranteed_ticket(), 2);

    // distribute by steps, to isolate each step's effect
    let seed = seed_for(&[(2, 8, 2)]);
    assert_eq!(
        lp.distribute_guaranteed_tickets(&seed, 2),
        Ok(OperationCompletionStatus::InterruptedBeforeOutOfGas)
    );
    // user[3]'s first ticket was selected
    assert_eq!(winners(&lp), vec![1, 4]);
    assert_eq!(
        lp.get_guaranteed_selection_state(),
        Some(GuaranteedSelectionState {
            leftover_tickets: 1,
            total_additional_winning_tickets: 1,
            leftover_ticket_pos_offset: 1,
        })
    );

    // the last leftover slot is redeemed, which completes the allocation
    assert_eq!(
        lp.distribute_guaranteed_tickets(&seed, 1),
        Ok(OperationCompletionStatus::Completed)
    );
    // ticket ID 2 was selected as winner
    assert_eq!(winners(&lp), vec![1, 2, 4]);
    assert_eq!(lp.get_guaranteed_selection_state(), None);
    assert_eq!(lp.get_nr_users_with_guaranteed_ticket(), 0);
    assert_eq!(winners(&lp).len() as u64, NR_WINNING_TICKETS);
}

#[test]
fn add_migration_guaranteed_tickets_scenario_test() {
    let nr_random_tickets = 1;
    let nr_staking_guaranteed_tickets = 2;
    let nr_migration_guaranteed_tickets = 2;
    let nr_winning_tickets =
        nr_random_tickets + nr_staking_guaranteed_tickets + nr_migration_guaranteed_tickets;
    let mut lp = setup(nr_winning_tickets);

    // add 2 new users with migration guaranteed tickets
    lp.add_tickets(&vec![(USER3, 1), (USER4, 2 * MAX_TIER_TICKETS)]).unwrap();
    lp.add_guaranteed_tickets(USER3, 1).unwrap();
    lp.add_guaranteed_tickets(USER4, 2).unwrap();

    // user[0] and user[1] will not confirm, so they get filtered
    lp.confirm_tickets(USER2, 3).unwrap();
    lp.confirm_tickets(USER3, 1).unwrap();
    lp.confirm_tickets(USER4, 6).unwrap();

    assert_eq!(lp.filter_tickets(100), Ok(OperationCompletionStatus::Completed));
    assert_eq!(lp.get_total_tickets(), 10);
    let base_seed = seed_for(&[(1, 11, 1)]);
    assert_eq!(lp.select_winners(&base_seed, 100), Ok(OperationCompletionStatus::Completed));

    assert_eq!(winners(&lp), vec![1]);
    assert_eq!(
        winners(&lp).len() as u64,
        nr_winning_tickets - nr_staking_guaranteed_tickets - nr_migration_guaranteed_tickets
    );
    assert_eq!(lp.get_nr_users_with_guaranteed_ticket(), 3);

    // distribute by steps, to isolate each step's effect
    let seed = seed_for(&[(2, 11, 8)]);
    assert_eq!(
        lp.distribute_guaranteed_tickets(&seed, 3),
        Ok(OperationCompletionStatus::InterruptedBeforeOutOfGas)
    );
    assert_eq!(winners(&lp), vec![1, 4, 5, 6]);
    assert_eq!(
        lp.get_guaranteed_selection_state(),
        Some(GuaranteedSelectionState {
            leftover_tickets: 1,
            total_additional_winning_tickets: 3,
            leftover_ticket_pos_offset: 1,
        })
    );

    assert_eq!(
        lp.distribute_guaranteed_tickets(&seed, 1),
        Ok(OperationCompletionStatus::Completed)
    );
    // randomly selected in the leftover distribution
    assert_eq!(winners(&lp), vec![1, 4, 5, 6, 8]);
    assert_eq!(lp.get_nr_users_with_guaranteed_ticket(), 0);
    assert_eq!(winners(&lp).len() as u64, nr_winning_tickets);
}
