use launchpad::{
    Address, ClaimResult, Launchpad, LaunchpadError, OperationCompletionStatus, Random, TicketBatch,
};
use sha2::{Digest, Sha256};

const A: Address = 11;
const B: Address = 12;
const C: Address = 13;
const D: Address = 14;

fn winners(lp: &Launchpad) -> Vec<u64> {
    (1..=lp.get_total_tickets()).filter(|id| lp.is_winning_ticket(*id)).collect()
}

fn seed(k: u8) -> Vec<u8> {
    vec![k, 1, 2, 3]
}

/// Runs every stage to completion with one call each.
fn run_all(lp: &mut Launchpad, s: &[u8]) {
    assert_eq!(lp.filter_tickets(u64::MAX), Ok(OperationCompletionStatus::Completed));
    assert_eq!(lp.select_winners(&s.to_vec(), u64::MAX), Ok(OperationCompletionStatus::Completed));
    assert_eq!(
        lp.distribute_guaranteed_tickets(&s.to_vec(), u64::MAX),
        Ok(OperationCompletionStatus::Completed)
    );
}

#[test]
fn filtering_sums_confirmed_counts() {
    let mut lp = Launchpad::new(10);
    lp.add_tickets(&vec![(A, 3), (B, 2), (C, 4), (D, 1)]).unwrap();
    lp.confirm_tickets(A, 2).unwrap();
    lp.confirm_tickets(C, 4).unwrap();
    lp.confirm_tickets(D, 1).unwrap();
    assert_eq!(lp.filter_tickets(100), Ok(OperationCompletionStatus::Completed));
    assert_eq!(lp.get_total_tickets(), 7);
    assert_eq!(lp.get_ticket_range_for_address(A), Some((1, 2)));
    assert_eq!(lp.get_ticket_range_for_address(B), None);
    assert_eq!(lp.get_ticket_range_for_address(C), Some((3, 6)));
    assert_eq!(lp.get_ticket_range_for_address(D), Some((7, 7)));
    assert_eq!(lp.get_total_number_of_tickets_for_address(A), 2);
    assert_eq!(lp.get_ticket_batch(1), Some(TicketBatch { address: A, nr_tickets: 2 }));
    assert_eq!(lp.get_ticket_batch(3), Some(TicketBatch { address: C, nr_tickets: 4 }));
    assert_eq!(lp.get_ticket_batch(4), None);
    assert_eq!(lp.get_ticket_batch(7), Some(TicketBatch { address: D, nr_tickets: 1 }));
    // the winner count is clamped to the tickets left
    assert_eq!(lp.get_nr_winning_tickets(), 7);
}

#[test]
fn disqualified_address_is_removed() {
    let mut lp = Launchpad::new(2);
    lp.add_tickets(&vec![(A, 2), (B, 3), (C, 1)]).unwrap();
    lp.confirm_tickets(A, 2).unwrap();
    lp.confirm_tickets(C, 1).unwrap();
    assert_eq!(lp.filter_tickets(100), Ok(OperationCompletionStatus::Completed));
    assert_eq!(lp.get_total_tickets(), 3);
    assert_eq!(lp.get_ticket_range_for_address(B), None);
    assert_eq!(lp.get_ticket_range_for_address(C), Some((3, 3)));
}

#[test]
fn blacklisted_address_is_refunded_and_removed() {
    let mut lp = Launchpad::new(2);
    lp.add_tickets(&vec![(A, 2), (B, 3), (C, 1)]).unwrap();
    lp.confirm_tickets(A, 2).unwrap();
    lp.confirm_tickets(B, 3).unwrap();
    lp.confirm_tickets(C, 1).unwrap();
    assert_eq!(lp.add_users_to_blacklist(&vec![B, D]), Ok(vec![(B, 3)]));
    assert!(lp.is_user_blacklisted(B));
    assert_eq!(lp.get_number_of_confirmed_tickets_for_address(B), 0);
    assert_eq!(lp.confirm_tickets(B, 1), Err(LaunchpadError::UserBlacklisted));
    assert_eq!(lp.filter_tickets(100), Ok(OperationCompletionStatus::Completed));
    assert_eq!(lp.get_total_tickets(), 3);
    assert_eq!(lp.get_ticket_range_for_address(B), None);
    assert_eq!(lp.get_ticket_range_for_address(C), Some((3, 3)));
}

#[test]
fn removed_from_blacklist_may_confirm_again() {
    let mut lp = Launchpad::new(2);
    lp.add_tickets(&vec![(A, 2)]).unwrap();
    lp.add_users_to_blacklist(&vec![A]).unwrap();
    lp.remove_users_from_blacklist(&vec![A]).unwrap();
    assert!(!lp.is_user_blacklisted(A));
    assert_eq!(lp.confirm_tickets(A, 2), Ok(()));
}

fn resumable_scenario() -> Launchpad {
    let mut lp = Launchpad::new(4);
    lp.add_tickets(&vec![(A, 3), (B, 2), (C, 4), (D, 2)]).unwrap();
    lp.add_guaranteed_tickets(C, 1).unwrap();
    lp.add_guaranteed_tickets(D, 2).unwrap();
    lp.confirm_tickets(A, 3).unwrap();
    lp.confirm_tickets(B, 1).unwrap();
    lp.confirm_tickets(C, 4).unwrap();
    lp
}

#[test]
fn interrupted_runs_match_single_run() {
    let s = seed(7);
    let mut whole = resumable_scenario();
    run_all(&mut whole, &s);

    let mut steps = resumable_scenario();
    let mut calls = 0;
    while steps.filter_tickets(1) == Ok(OperationCompletionStatus::InterruptedBeforeOutOfGas) {
        calls += 1;
    }
    while steps.select_winners(&s, 1) == Ok(OperationCompletionStatus::InterruptedBeforeOutOfGas) {
        calls += 1;
    }
    while steps.distribute_guaranteed_tickets(&s, 1)
        == Ok(OperationCompletionStatus::InterruptedBeforeOutOfGas)
    {
        calls += 1;
    }
    assert!(calls > 3);
    assert_eq!(winners(&steps), winners(&whole));
    for a in [A, B, C, D] {
        assert_eq!(steps.get_ticket_range_for_address(a), whole.get_ticket_range_for_address(a));
    }
    assert_eq!(winners(&whole).len(), 4);
}

#[test]
fn zero_budget_changes_nothing_but_the_stage() {
    let mut lp = resumable_scenario();
    assert_eq!(lp.filter_tickets(0), Ok(OperationCompletionStatus::InterruptedBeforeOutOfGas));
    assert_eq!(lp.get_total_tickets(), 11);
    assert_eq!(lp.confirm_tickets(B, 1), Err(LaunchpadError::SelectionAlreadyStarted));
}

#[test]
fn base_draw_marks_configured_count() {
    let mut lp = Launchpad::new(2);
    lp.add_tickets(&vec![(A, 3), (B, 2)]).unwrap();
    lp.confirm_tickets(A, 3).unwrap();
    lp.confirm_tickets(B, 2).unwrap();
    lp.filter_tickets(100).unwrap();
    assert_eq!(lp.select_winners(&seed(1), 100), Ok(OperationCompletionStatus::Completed));
    assert_eq!(winners(&lp).len(), 2);
    assert_eq!(
        lp.get_winning_ticket_ids_for_address(A).len()
            + lp.get_winning_ticket_ids_for_address(B).len(),
        2
    );
}

#[test]
fn base_draw_is_clamped_to_tickets_left() {
    let mut lp = Launchpad::new(10);
    lp.add_tickets(&vec![(A, 3), (B, 5)]).unwrap();
    lp.confirm_tickets(A, 3).unwrap();
    lp.confirm_tickets(B, 1).unwrap();
    lp.filter_tickets(100).unwrap();
    assert_eq!(lp.get_nr_winning_tickets(), 4);
    assert_eq!(lp.select_winners(&seed(2), 100), Ok(OperationCompletionStatus::Completed));
    assert_eq!(winners(&lp), vec![1, 2, 3, 4]);
}

#[test]
fn allocation_reaches_count_when_quotas_exceed_tickets() {
    let mut lp = Launchpad::new(4);
    lp.add_tickets(&vec![(A, 1), (B, 4), (C, 3)]).unwrap();
    lp.add_guaranteed_tickets(A, 3).unwrap();
    lp.add_guaranteed_tickets(C, 1).unwrap();
    lp.confirm_tickets(A, 1).unwrap();
    lp.confirm_tickets(B, 4).unwrap();
    run_all(&mut lp, &seed(3));
    assert_eq!(winners(&lp).len(), 4);
    // A holds one ticket only and wins it
    assert_eq!(lp.get_winning_ticket_ids_for_address(A), vec![1]);
    // C confirmed nothing, so its quota went back to the draw
    assert_eq!(lp.get_ticket_range_for_address(C), None);
}

#[test]
fn allocation_reaches_count_when_quotas_are_met() {
    let mut lp = Launchpad::new(3);
    lp.add_tickets(&vec![(A, 2), (B, 2), (C, 2)]).unwrap();
    lp.add_guaranteed_tickets(A, 2).unwrap();
    for a in [A, B, C] {
        lp.confirm_tickets(a, 2).unwrap();
    }
    run_all(&mut lp, &seed(4));
    assert_eq!(winners(&lp).len(), 3);
    assert_eq!(lp.get_winning_ticket_ids_for_address(A), vec![1, 2]);
}

#[test]
fn every_ticket_wins_when_winners_cover_them() {
    let mut lp = Launchpad::new(6);
    lp.add_tickets(&vec![(A, 2), (B, 4)]).unwrap();
    lp.add_guaranteed_tickets(A, 5).unwrap();
    lp.confirm_tickets(A, 1).unwrap();
    lp.confirm_tickets(B, 2).unwrap();
    run_all(&mut lp, &seed(5));
    assert_eq!(lp.get_nr_winning_tickets(), 3);
    assert_eq!(winners(&lp), vec![1, 2, 3]);
}

#[test]
fn completed_stages_are_rejected_again() {
    let mut lp = resumable_scenario();
    run_all(&mut lp, &seed(6));
    let before = winners(&lp);
    assert_eq!(lp.filter_tickets(10), Err(LaunchpadError::TicketsAlreadyFiltered));
    assert_eq!(lp.select_winners(&seed(9), 10), Err(LaunchpadError::WinnersAlreadySelected));
    assert_eq!(
        lp.distribute_guaranteed_tickets(&seed(9), 10),
        Err(LaunchpadError::GuaranteedTicketsAlreadyDistributed)
    );
    assert_eq!(winners(&lp), before);
}

#[test]
fn stages_out_of_order_are_rejected() {
    let mut lp = resumable_scenario();
    assert_eq!(lp.select_winners(&seed(1), 10), Err(LaunchpadError::MustFilterTicketsFirst));
    assert_eq!(
        lp.distribute_guaranteed_tickets(&seed(1), 10),
        Err(LaunchpadError::MustSelectWinnersFirst)
    );
    assert_eq!(lp.claim_launchpad_tokens(A), Err(LaunchpadError::NotInClaimPeriod));
}

#[test]
fn registration_errors() {
    let mut lp = Launchpad::new(3);
    lp.add_tickets(&vec![(A, 1)]).unwrap();
    assert_eq!(lp.add_tickets(&vec![(A, 1)]), Err(LaunchpadError::DuplicateEntry));
    assert_eq!(lp.add_tickets(&vec![(B, 1), (B, 2)]), Err(LaunchpadError::DuplicateEntry));
    assert_eq!(lp.add_tickets(&vec![(B, 1), (C, 0)]), Err(LaunchpadError::InvalidTicketCount));
    assert_eq!(
        lp.add_tickets(&vec![(B, u64::MAX - 1)]),
        Err(LaunchpadError::TicketIdsExhausted)
    );
    // a rejected list changes nothing
    assert_eq!(lp.get_ticket_range_for_address(B), None);
    assert_eq!(lp.get_total_tickets(), 1);
    assert_eq!(lp.try_create_tickets(A, 2), Err(LaunchpadError::DuplicateEntry));
    assert_eq!(lp.try_create_tickets(B, 0), Err(LaunchpadError::InvalidTicketCount));
    assert_eq!(lp.try_create_tickets(B, 2), Ok(()));
    assert_eq!(lp.get_ticket_range_for_address(B), Some((2, 3)));

    assert_eq!(lp.add_guaranteed_tickets(A, 0), Err(LaunchpadError::InvalidTicketCount));
    assert_eq!(lp.add_guaranteed_tickets(A, 4), Err(LaunchpadError::TooManyGuaranteedTickets));
    assert_eq!(lp.add_guaranteed_tickets(A, 2), Ok(()));
    assert_eq!(lp.add_guaranteed_tickets(A, 1), Err(LaunchpadError::DuplicateEntry));
    assert_eq!(lp.add_guaranteed_tickets(B, 2), Err(LaunchpadError::TooManyGuaranteedTickets));

    assert_eq!(lp.confirm_tickets(A, 2), Err(LaunchpadError::TooManyTicketsConfirmed));
    assert_eq!(lp.confirm_tickets(A, 0), Ok(()));
    assert_eq!(lp.confirm_tickets(A, 1), Ok(()));
    assert_eq!(lp.confirm_tickets(A, 1), Err(LaunchpadError::TooManyTicketsConfirmed));
    assert_eq!(lp.confirm_tickets(D, 1), Err(LaunchpadError::TooManyTicketsConfirmed));

    lp.filter_tickets(0).unwrap();
    assert_eq!(lp.add_tickets(&vec![(C, 1)]), Err(LaunchpadError::AddTicketsPeriodPassed));
    assert_eq!(lp.try_create_tickets(C, 1), Err(LaunchpadError::AddTicketsPeriodPassed));
    assert_eq!(lp.add_guaranteed_tickets(C, 1), Err(LaunchpadError::AddTicketsPeriodPassed));
    assert_eq!(lp.confirm_tickets(B, 1), Err(LaunchpadError::SelectionAlreadyStarted));
    assert_eq!(lp.add_users_to_blacklist(&vec![B]), Err(LaunchpadError::SelectionAlreadyStarted));
    assert_eq!(
        lp.remove_users_from_blacklist(&vec![B]),
        Err(LaunchpadError::SelectionAlreadyStarted)
    );
}

#[test]
fn claims_settle_each_address_once() {
    let mut lp = Launchpad::new(2);
    lp.add_tickets(&vec![(A, 3), (B, 1)]).unwrap();
    lp.confirm_tickets(A, 3).unwrap();
    lp.confirm_tickets(B, 1).unwrap();
    run_all(&mut lp, &seed(8));
    let won_a = lp.get_number_of_winning_tickets_for_address(A) as u64;
    let won_b = lp.get_number_of_winning_tickets_for_address(B) as u64;
    assert_eq!(won_a + won_b, 2);
    assert_eq!(
        lp.claim_launchpad_tokens(A),
        Ok(ClaimResult { nr_redeemable_tickets: won_a, nr_tickets_to_refund: 3 - won_a })
    );
    assert!(lp.has_user_claimed(A));
    assert_eq!(lp.get_ticket_range_for_address(A), None);
    assert_eq!(lp.get_nr_winning_tickets(), 2 - won_a);
    assert_eq!(winners(&lp).len() as u64, won_b);
    assert_eq!(lp.claim_launchpad_tokens(A), Err(LaunchpadError::AlreadyClaimed));
    assert_eq!(lp.claim_launchpad_tokens(C), Err(LaunchpadError::NoTickets));
}

#[test]
fn winning_ids_are_listed_in_order() {
    let mut lp = Launchpad::new(4);
    lp.add_tickets(&vec![(A, 4)]).unwrap();
    lp.confirm_tickets(A, 4).unwrap();
    lp.filter_tickets(10).unwrap();
    assert_eq!(lp.get_winning_ticket_ids_for_address(A), Vec::<u64>::new());
    lp.select_winners(&seed(1), 10).unwrap();
    assert_eq!(lp.get_winning_ticket_ids_for_address(A), vec![1, 2, 3, 4]);
    assert_eq!(lp.get_number_of_winning_tickets_for_address(A), 4);
    assert_eq!(lp.get_winning_ticket_ids_for_address(B), Vec::<u64>::new());
}

#[test]
fn generator_key_is_the_sha256_digest_of_the_seed() {
    let rng = Random::from_seed(&b"abc".to_vec());
    let expected: Vec<u8> = Sha256::digest(b"abc").to_vec();
    assert_eq!(rng.seed, expected);
    assert_eq!(rng.seed[0], 0xba);
    assert_eq!(rng.seed[31], 0xad);
    assert_eq!(rng.index, 0);
}

#[test]
fn generator_reads_big_endian_words_and_rehashes() {
    let mut rng = Random::from_seed(&b"abc".to_vec());
    let key = rng.seed.clone();
    assert_eq!(rng.next_u32(), 0xba7816bf);
    assert_eq!(rng.next_u32(), 0x8f01cfea);
    for _ in 0..6 {
        rng.next_u32();
    }
    assert_eq!(rng.index, 32);
    let next_key: Vec<u8> = Sha256::digest(&key).to_vec();
    let word = u64::from_be_bytes([0, 0, 0, 0, next_key[0], next_key[1], next_key[2], next_key[3]]);
    assert_eq!(rng.next_u32(), word);
    assert_eq!(rng.seed, next_key);
    assert_eq!(rng.index, 4);
}

#[test]
fn generator_draws_within_range() {
    let mut rng = Random::from_seed(&b"abc".to_vec());
    assert_eq!(rng.next_usize_in_range(10, 20), 10 + 0xba7816bf % 10);
    let mut copy = rng.duplicate();
    for _ in 0..50 {
        let r = rng.next_usize_in_range(5, 8);
        assert!((5..8).contains(&r));
        assert_eq!(copy.next_usize_in_range(5, 8), r);
    }
    let resumed = Random::from_hash(rng.seed.clone(), rng.index);
    assert_eq!(resumed.seed, rng.seed);
}
