//! Round-lifecycle laws: properties that relate several ledger operations,
//! stated over the ledger model ([`RoundView`]) and the transition functions
//! that the operations' contracts are written with.

use vstd::prelude::*;
use crate::round::{
    Bet, BetError, BetItem, RoundView, MIN_BET_AMOUNT, has_bet_id, lookup_result, payout_entry,
    payouts_of, record_for, settlement_of, spec_bet, spec_bet_results, spec_reset, spec_reveal,
    unique_ids, wf_view, winning_bet_of,
};

verus! {

/// A stake below the minimum is refused with `InsufficientStake` and the
/// ledger is left exactly as it was: no record is created.
pub proof fn lemma_insufficient_stake_rejected(
    v: RoundView,
    account_id: u64,
    bet: Bet,
    amount: u128,
    created_at: u64,
)
    requires
        amount < MIN_BET_AMOUNT,
    ensures
        spec_bet(v, account_id, bet, amount, created_at) == (
            v,
            Err::<(), BetError>(BetError::InsufficientStake),
        ),
{
}

/// Placing a bet twice for the same participant in the same round (no reveal
/// or reset between) fails the second call with `DuplicateBet`, changes
/// nothing, and the participant's record stays the one the first call wrote.
pub proof fn lemma_second_bet_rejected(
    v: RoundView,
    account_id: u64,
    bet1: Bet,
    amount1: u128,
    created_at1: u64,
    bet2: Bet,
    amount2: u128,
    created_at2: u64,
)
    requires
        wf_view(v),
        amount2 >= MIN_BET_AMOUNT,
        spec_bet(v, account_id, bet1, amount1, created_at1).1 is Ok,
    ensures
        ({
            let v1 = spec_bet(v, account_id, bet1, amount1, created_at1).0;
            let (v2, r2) = spec_bet(v1, account_id, bet2, amount2, created_at2);
            &&& r2 == Err::<(), BetError>(BetError::DuplicateBet)
            &&& v2 == v1
            &&& record_for(v1.bets, account_id) == BetItem {
                u: account_id,
                bet: bet1,
                amount: amount1,
                created_at: created_at1,
            }
        }),
{
    let v1 = spec_bet(v, account_id, bet1, amount1, created_at1).0;
    let item = BetItem { u: account_id, bet: bet1, amount: amount1, created_at: created_at1 };
    assert(v1.bets == v.bets.push(item));
    assert(v1.bets[v.bets.len() as int] == item);
    assert(has_bet_id(v1.bets, account_id));
    let j = choose|j: int| 0 <= j < v1.bets.len() && v1.bets[j].u == account_id;
    if j < v.bets.len() {
        assert(v.bets[j] == v1.bets[j]);
        assert(has_bet_id(v.bets, account_id));
    }
    assert(record_for(v1.bets, account_id) == item);
}

/// After a successful reveal, the winning outcome is the one derived from
/// the clock reading, and every record's settlement flag says exactly
/// whether that record's chosen outcome equals the winning outcome.
pub proof fn lemma_reveal_settles(v: RoundView, caller: u64, now: u64)
    requires
        wf_view(v),
        spec_reveal(v, caller, now).1 is Ok,
    ensures
        ({
            let v1 = spec_reveal(v, caller, now).0;
            let w = winning_bet_of(now);
            &&& v1.win_bet == Some(w)
            &&& v1.bets == v.bets
            &&& v1.results.len() == v1.bets.len()
            &&& forall|i: int|
                0 <= i < v1.bets.len() ==> #[trigger] v1.results[i] == (
                    v1.bets[i].u,
                    v1.bets[i].bet == w,
                )
        }),
{
}

/// Once set, the winning outcome is not changed by placing a further bet nor
/// by another reveal attempt (which fails); only a reset unsets it.
pub proof fn lemma_winning_outcome_stable(
    v: RoundView,
    account_id: u64,
    bet: Bet,
    amount: u128,
    created_at: u64,
    caller: u64,
    now: u64,
)
    requires
        v.win_bet is Some,
    ensures
        spec_bet(v, account_id, bet, amount, created_at).0.win_bet == v.win_bet,
        spec_reveal(v, caller, now).0 == v,
        spec_reveal(v, caller, now).1 is Err,
{
}

/// A second reveal without an intervening reset fails with
/// `RoundAlreadyRevealed`, and the settlement results (indeed the whole
/// state) are unchanged by the failed call.
pub proof fn lemma_second_reveal_rejected(
    v: RoundView,
    caller1: u64,
    now1: u64,
    caller2: u64,
    now2: u64,
)
    requires
        spec_reveal(v, caller1, now1).1 is Ok,
        caller2 == v.operator,
    ensures
        ({
            let v1 = spec_reveal(v, caller1, now1).0;
            let (v2, r2) = spec_reveal(v1, caller2, now2);
            &&& r2 == Err::<Seq<(u64, u128)>, BetError>(BetError::RoundAlreadyRevealed)
            &&& v2 == v1
            &&& v2.results == v1.results
        }),
{
}

/// A reset by the operator succeeds whatever the prior round state, leaves
/// no records, no settlement results and no winning outcome, yields a
/// well-formed state, and doing it again changes nothing further.
pub proof fn lemma_reset_clears(v: RoundView, caller: u64)
    requires
        caller == v.operator,
    ensures
        ({
            let (v1, r1) = spec_reset(v, caller);
            &&& r1 == Ok::<(), BetError>(())
            &&& v1.bets.len() == 0
            &&& v1.results.len() == 0
            &&& v1.win_bet is None
            &&& v1.operator == v.operator
            &&& wf_view(v1)
            &&& spec_reset(v1, caller) == (v1, Ok::<(), BetError>(()))
        }),
{
    let (v1, r1) = spec_reset(v, caller);
    assert(spec_reset(v1, caller).0 =~= v1);
}

/// Every entry of a reveal's payout list belongs to a winning record and owes
/// exactly `stake + floor(stake * PAYOUT_PERCENT / 100)` — the open
/// definition of [`payout_entry`]; conversely, every winning record has its
/// entry in the list.
pub proof fn lemma_payouts_formula(s: Seq<BetItem>, w: Bet)
    ensures
        forall|j: int|
            0 <= j < payouts_of(s, w).len() ==> exists|i: int|
                0 <= i < s.len() && s[i].bet == w && #[trigger] payouts_of(s, w)[j] == payout_entry(
                    s[i],
                ),
        forall|i: int|
            0 <= i < s.len() && (#[trigger] s[i]).bet == w ==> exists|j: int|
                0 <= j < payouts_of(s, w).len() && payouts_of(s, w)[j] == payout_entry(s[i]),
    decreases s.len(),
{
    if s.len() > 0 {
        lemma_payouts_formula(s.drop_last(), w);
        let head = payouts_of(s.drop_last(), w);
        assert forall|j: int| 0 <= j < payouts_of(s, w).len() implies exists|i: int|
            0 <= i < s.len() && s[i].bet == w && #[trigger] payouts_of(s, w)[j] == payout_entry(
                s[i],
            ) by {
            if j < head.len() {
                let i = choose|i: int|
                    0 <= i < s.drop_last().len() && s.drop_last()[i].bet == w && #[trigger] head[j]
                        == payout_entry(s.drop_last()[i]);
                assert(s.drop_last()[i] == s[i]);
                assert(payouts_of(s, w)[j] == head[j]);
            } else {
                assert(s.last() == s[s.len() - 1]);
                assert(s.last().bet == w);
            }
        }
        assert forall|i: int| 0 <= i < s.len() && (#[trigger] s[i]).bet == w implies exists|j: int|
            0 <= j < payouts_of(s, w).len() && payouts_of(s, w)[j] == payout_entry(s[i]) by {
            if i < s.len() - 1 {
                assert(s.drop_last()[i] == s[i]);
                let j = choose|j: int|
                    0 <= j < head.len() && head[j] == payout_entry(s.drop_last()[i]);
                assert(payouts_of(s, w)[j] == head[j]);
            } else {
                let j = payouts_of(s, w).len() - 1;
                assert(payouts_of(s, w)[j] == payout_entry(s[i]));
            }
        }
    }
}

/// In the settlement results a reveal writes over records with unique
/// participant ids, the flag looked up for record `i`'s participant is
/// exactly that record's flag.
pub proof fn lemma_lookup_settlement(s: Seq<BetItem>, w: Bet, i: int)
    requires
        unique_ids(s),
        0 <= i < s.len(),
    ensures
        lookup_result(settlement_of(s, w), s[i].u) == Some(s[i].bet == w),
    decreases s.len(),
{
    let t = settlement_of(s, w);
    assert(t[0] == (s[0].u, s[0].bet == w));
    if i == 0 {
    } else {
        assert(s[0].u != s[i].u);
        assert(t.drop_first() =~= settlement_of(s.drop_first(), w));
        assert(s.drop_first()[i - 1] == s[i]);
        lemma_lookup_settlement(s.drop_first(), w, i - 1);
    }
}

/// Before any reveal, the full query pairs every record with `None`; after a
/// successful reveal it pairs every record present at reveal time with
/// `Some` of its settlement flag.
pub proof fn lemma_results_pairing(v: RoundView, caller: u64, now: u64)
    requires
        wf_view(v),
    ensures
        v.win_bet is None ==> forall|i: int|
            0 <= i < spec_bet_results(v).len() ==> (#[trigger] spec_bet_results(v)[i]) == (
                v.bets[i],
                Option::<bool>::None,
            ),
        spec_reveal(v, caller, now).1 is Ok ==> ({
            let v1 = spec_reveal(v, caller, now).0;
            forall|i: int|
                0 <= i < spec_bet_results(v1).len() ==> (#[trigger] spec_bet_results(v1)[i]) == (
                    v1.bets[i],
                    Some(v1.bets[i].bet == winning_bet_of(now)),
                )
        }),
{
    if v.win_bet is None {
        assert(v.results.len() == 0);
    }
    if spec_reveal(v, caller, now).1 is Ok {
        let v1 = spec_reveal(v, caller, now).0;
        let w = winning_bet_of(now);
        assert forall|i: int| 0 <= i < spec_bet_results(v1).len() implies (
        #[trigger] spec_bet_results(v1)[i]) == (v1.bets[i], Some(v1.bets[i].bet == w)) by {
            lemma_lookup_settlement(v.bets, w, i);
        }
    }
}

} // verus!
