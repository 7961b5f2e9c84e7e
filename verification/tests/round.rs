use taixiu::{Bet, BetError, BetItem, SimpleTaiXiu, MIN_BET_AMOUNT};

const DEPOSIT: u128 = 1_000_000_000_000_000_000_000_000;

// A clock reading whose coarsened parity picks `Big`: (100 / 100) % 2 == 1.
const NOW_BIG: u64 = 100;
// A clock reading whose coarsened parity picks `Small`: (0 / 100) % 2 == 0.
const NOW_SMALL: u64 = 0;

#[test]
fn user_can_bet() {
    let mut contract = SimpleTaiXiu::default();
    assert_eq!(contract.bet(1, Bet::Big, DEPOSIT, 0), Ok(()));
    assert!(contract.get_my_bets(1).is_some(), "Cannot place bet");
}

#[test]
fn user_cannot_bet_twice() {
    let mut contract = SimpleTaiXiu::default();
    assert_eq!(contract.bet(1, Bet::Big, DEPOSIT, 0), Ok(()));
    assert_eq!(contract.bet(1, Bet::Big, DEPOSIT, 1), Err(BetError::DuplicateBet));
}

#[test]
fn duplicate_bet_keeps_first_record() {
    let mut contract = SimpleTaiXiu::default();
    assert_eq!(contract.bet(7, Bet::Small, DEPOSIT, 11), Ok(()));
    assert_eq!(contract.bet(7, Bet::Big, 2 * DEPOSIT, 99), Err(BetError::DuplicateBet));
    let first = BetItem { u: 7, bet: Bet::Small, amount: DEPOSIT, created_at: 11 };
    assert_eq!(contract.get_my_bets(7), Some((first, None)));
    assert_eq!(contract.get_bet_results(), vec![(first, None)]);
}

#[test]
fn bet_below_minimum_fails_and_writes_nothing() {
    let mut contract = SimpleTaiXiu::default();
    assert_eq!(
        contract.bet(1, Bet::Big, MIN_BET_AMOUNT - 1, 0),
        Err(BetError::InsufficientStake)
    );
    assert_eq!(contract.get_my_bets(1), None);
    assert!(contract.get_bet_results().is_empty());
}

#[test]
fn reveal_settles_each_record() {
    let mut contract = SimpleTaiXiu::default();
    assert_eq!(contract.bet(1, Bet::Big, DEPOSIT, 0), Ok(()));
    assert_eq!(contract.bet(2, Bet::Small, DEPOSIT, 1), Ok(()));
    assert!(contract.reveal_result(0, NOW_BIG).is_ok());
    assert_eq!(contract.winning_bet(), Some(Bet::Big));
    let rows = contract.get_bet_results();
    assert_eq!(rows.len(), 2);
    for (record, won) in rows {
        assert_eq!(won, Some(record.bet == Bet::Big));
    }
    // The winning outcome stays put until the next reset, whatever else happens.
    assert_eq!(contract.bet(3, Bet::Small, DEPOSIT, 2), Ok(()));
    assert!(contract.reveal_result(0, NOW_SMALL).is_err());
    assert_eq!(contract.winning_bet(), Some(Bet::Big));
}

#[test]
fn reveal_twice_fails_and_changes_nothing() {
    let mut contract = SimpleTaiXiu::default();
    assert_eq!(contract.bet(1, Bet::Big, DEPOSIT, 0), Ok(()));
    assert!(contract.reveal_result(0, NOW_BIG).is_ok());
    let rows_before = contract.get_bet_results();
    assert_eq!(
        contract.reveal_result(0, NOW_SMALL),
        Err(BetError::RoundAlreadyRevealed)
    );
    assert_eq!(contract.get_bet_results(), rows_before);
    assert_eq!(contract.winning_bet(), Some(Bet::Big));
}

#[test]
fn reset_clears_everything_and_is_idempotent() {
    let mut contract = SimpleTaiXiu::default();
    assert_eq!(contract.bet(1, Bet::Big, DEPOSIT, 0), Ok(()));
    assert_eq!(contract.bet(2, Bet::Small, DEPOSIT, 1), Ok(()));
    assert!(contract.reveal_result(0, NOW_BIG).is_ok());
    assert_eq!(contract.start_new_match(0), Ok(()));
    assert!(contract.get_bet_results().is_empty());
    assert_eq!(contract.winning_bet(), None);
    assert_eq!(contract.get_my_bets(1), None);
    // Resetting again leaves the same cleared state; a reset with no reveal works too.
    assert_eq!(contract.start_new_match(0), Ok(()));
    assert!(contract.get_bet_results().is_empty());
    assert_eq!(contract.winning_bet(), None);
    assert_eq!(contract.bet(1, Bet::Small, DEPOSIT, 5), Ok(()));
    assert_eq!(contract.start_new_match(0), Ok(()));
    assert!(contract.get_bet_results().is_empty());
}

#[test]
fn payout_formula_exact_value() {
    // Stake of 0.1 unit pays out 0.195 units: S + floor(S * 95 / 100).
    let stake: u128 = 100_000_000_000_000_000_000_000;
    let expected: u128 = 195_000_000_000_000_000_000_000;
    let mut contract = SimpleTaiXiu::default();
    assert_eq!(contract.bet(9, Bet::Big, stake, 0), Ok(()));
    let payouts = contract.reveal_result(0, NOW_BIG).unwrap();
    assert_eq!(payouts, vec![(9, expected)]);
    assert_eq!(expected, stake + stake * 95 / 100);
}

#[test]
fn scenario_winner_paid_loser_forfeits() {
    let mut contract = SimpleTaiXiu::default();
    // Participant A bets Big with the stake exactly at the minimum.
    assert_eq!(contract.bet(1, Bet::Big, MIN_BET_AMOUNT, 10), Ok(()));
    // Participant B bets Small in the same round.
    assert_eq!(contract.bet(2, Bet::Small, MIN_BET_AMOUNT, 11), Ok(()));
    // The operator reveals with the outcome resolving to Big.
    let payouts = contract.reveal_result(0, NOW_BIG).unwrap();
    let record_a = BetItem { u: 1, bet: Bet::Big, amount: MIN_BET_AMOUNT, created_at: 10 };
    let record_b = BetItem { u: 2, bet: Bet::Small, amount: MIN_BET_AMOUNT, created_at: 11 };
    assert_eq!(contract.get_my_bets(1), Some((record_a, Some(true))));
    assert_eq!(contract.get_my_bets(2), Some((record_b, Some(false))));
    // A transfer for the computed amount is owed to A and nothing to B.
    let expected = MIN_BET_AMOUNT + MIN_BET_AMOUNT * 95 / 100;
    assert_eq!(payouts, vec![(1, expected)]);
}

#[test]
fn results_pairing_before_and_after_reveal() {
    let mut contract = SimpleTaiXiu::default();
    assert_eq!(contract.bet(1, Bet::Big, DEPOSIT, 0), Ok(()));
    assert_eq!(contract.bet(2, Bet::Small, DEPOSIT, 1), Ok(()));
    for (_, won) in contract.get_bet_results() {
        assert_eq!(won, None);
    }
    assert!(contract.reveal_result(0, NOW_SMALL).is_ok());
    let rows = contract.get_bet_results();
    assert_eq!(rows.len(), 2);
    for (record, won) in rows {
        assert_eq!(won, Some(record.bet == Bet::Small));
    }
}

#[test]
fn only_the_operator_reveals_and_resets() {
    let mut contract = SimpleTaiXiu::new(42);
    assert_eq!(contract.bet(1, Bet::Big, DEPOSIT, 0), Ok(()));
    assert_eq!(contract.reveal_result(1, NOW_BIG), Err(BetError::Unauthorized));
    assert_eq!(contract.start_new_match(1), Err(BetError::Unauthorized));
    assert_eq!(contract.winning_bet(), None);
    assert_eq!(contract.get_bet_results().len(), 1);
    assert!(contract.reveal_result(42, NOW_BIG).is_ok());
    assert_eq!(contract.start_new_match(42), Ok(()));
}

#[test]
fn outcome_follows_coarsened_parity_of_clock() {
    for (now, expected) in [
        (0u64, Bet::Small),
        (99, Bet::Small),
        (100, Bet::Big),
        (199, Bet::Big),
        (200, Bet::Small),
        (301, Bet::Big),
    ] {
        let mut contract = SimpleTaiXiu::default();
        assert!(contract.reveal_result(0, now).is_ok());
        assert_eq!(contract.winning_bet(), Some(expected), "clock reading {}", now);
    }
}
