use taixiu::{Bet, BetItem, SimpleTaiXiu, MAX_BET_AMOUNT, MIN_BET_AMOUNT};

fn record(u: u64, bet: Bet, amount: u128) -> BetItem {
    BetItem { u, bet, amount, created_at: 0 }
}

#[test]
fn from_parts_rebuilds_a_settled_round() {
    let mut contract = SimpleTaiXiu::new(5);
    assert_eq!(contract.bet(1, Bet::Big, MIN_BET_AMOUNT, 0), Ok(()));
    assert_eq!(contract.bet(2, Bet::Small, MIN_BET_AMOUNT, 1), Ok(()));
    assert!(contract.reveal_result(5, 100).is_ok());
    let rebuilt = SimpleTaiXiu::from_parts(
        contract.bets().clone(),
        contract.result_bets().clone(),
        contract.winning_bet(),
        contract.operator(),
    )
    .expect("a stored state is well formed");
    assert_eq!(rebuilt.get_bet_results(), contract.get_bet_results());
    assert_eq!(rebuilt.winning_bet(), contract.winning_bet());
    assert_eq!(rebuilt.operator(), contract.operator());
}

#[test]
fn from_parts_refuses_duplicate_participants() {
    let bets = vec![record(1, Bet::Big, MIN_BET_AMOUNT), record(1, Bet::Small, MIN_BET_AMOUNT)];
    assert!(SimpleTaiXiu::from_parts(bets, Vec::new(), None, 0).is_none());
}

#[test]
fn from_parts_refuses_out_of_range_stakes() {
    let low = vec![record(1, Bet::Big, MIN_BET_AMOUNT - 1)];
    assert!(SimpleTaiXiu::from_parts(low, Vec::new(), None, 0).is_none());
    let high = vec![record(1, Bet::Big, MAX_BET_AMOUNT + 1)];
    assert!(SimpleTaiXiu::from_parts(high, Vec::new(), None, 0).is_none());
}

#[test]
fn from_parts_refuses_stray_settlement_results() {
    let bets = vec![record(1, Bet::Big, MIN_BET_AMOUNT)];
    // A result while the round is still open.
    assert!(SimpleTaiXiu::from_parts(bets.clone(), vec![(1, true)], None, 0).is_none());
    // A result for a participant with no record.
    assert!(
        SimpleTaiXiu::from_parts(bets.clone(), vec![(2, true)], Some(Bet::Big), 0).is_none()
    );
    // Two results for one participant.
    assert!(
        SimpleTaiXiu::from_parts(bets.clone(), vec![(1, true), (1, true)], Some(Bet::Big), 0)
            .is_none()
    );
    // The stored state itself is accepted.
    assert!(SimpleTaiXiu::from_parts(bets, vec![(1, true)], Some(Bet::Big), 0).is_some());
}
