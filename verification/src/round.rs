//! The round ledger: bet records, settlement results, and the winning
//! outcome of the current round, with the operations that drive the
//! round lifecycle (place a bet, reveal the result, reset the round).
//!
//! The ledger itself is pure state over plain values. The host around it
//! supplies caller identities (as numeric participant ids), attached
//! deposits, clock readings, and performs the payout transfers that
//! [`SimpleTaiXiu::reveal_result`] returns as a list of owed amounts.

use vstd::prelude::*;

verus! {

/// Percentage of the stake paid on top of it to a winning participant.
pub const PAYOUT_PERCENT: u8 = 95;

/// Smallest stake a participant may place (in the smallest value denomination).
pub const MIN_BET_AMOUNT: u128 = 100_000_000_000_000_000_000_000;

/// Largest stake the ledger accepts: `u128::MAX / 95`, so that the payout
/// arithmetic `stake + stake * PAYOUT_PERCENT / 100` stays within `u128`.
pub const MAX_BET_AMOUNT: u128 = 3_581_919_651_799_352_246_982_890_604_544_928_541;

/// The two possible outcomes of the binary market.
#[derive(PartialEq, Eq, Structural, Clone, Copy, Debug)]
pub enum Bet {
    Big,
    Small,
}

/// One participant's bet, immutable once placed, discarded at round reset.
#[derive(PartialEq, Eq, Structural, Clone, Copy, Debug)]
pub struct BetItem {
    /// The participant who placed the bet (unique within a round).
    pub u: u64,
    /// The outcome the participant chose.
    pub bet: Bet,
    /// The staked amount, in the smallest value denomination.
    pub amount: u128,
    /// Clock reading at placement.
    pub created_at: u64,
}

/// Why a ledger operation was refused. No state changes when one is returned.
#[derive(PartialEq, Eq, Structural, Clone, Copy, Debug)]
pub enum BetError {
    /// The attached stake is below [`MIN_BET_AMOUNT`].
    InsufficientStake,
    /// The participant already has a bet record in the current round.
    DuplicateBet,
    /// The winning outcome is already set; the round must be reset first.
    RoundAlreadyRevealed,
    /// The caller is not the designated operator.
    Unauthorized,
}

/// Mathematical model of the ledger state.
#[verifier::ext_equal]
pub struct RoundView {
    /// Bet records of the current round, in insertion order.
    pub bets: Seq<BetItem>,
    /// Settlement results, one `(participant, won)` pair per record that
    /// existed at reveal time; empty while the round is open.
    pub results: Seq<(u64, bool)>,
    /// The winning outcome, `None` while the round is open.
    pub win_bet: Option<Bet>,
    /// The identity allowed to reveal and reset.
    pub operator: u64,
}

/// Whether some record in `s` belongs to participant `id`.
pub open spec fn has_bet_id(s: Seq<BetItem>, id: u64) -> bool {
    exists|i: int| 0 <= i < s.len() && s[i].u == id
}

/// Every participant owns at most one record.
pub open spec fn unique_ids(s: Seq<BetItem>) -> bool {
    forall|i: int, j: int| 0 <= i < j < s.len() ==> s[i].u != s[j].u
}

/// The record of participant `id` (meaningful when `has_bet_id(s, id)` and
/// the ids in `s` are unique).
pub open spec fn record_for(s: Seq<BetItem>, id: u64) -> BetItem {
    s[choose|i: int| 0 <= i < s.len() && s[i].u == id]
}

/// The settlement flag stored for participant `id`, if any.
pub open spec fn lookup_result(s: Seq<(u64, bool)>, id: u64) -> Option<bool>
    decreases s.len(),
{
    if s.len() == 0 {
        None
    } else if s[0].0 == id {
        Some(s[0].1)
    } else {
        lookup_result(s.drop_first(), id)
    }
}

/// What a winner with the given stake is owed:
/// the stake back, plus `PAYOUT_PERCENT` percent of it (truncating division).
pub open spec fn payout_amount(stake: u128) -> int {
    stake + stake * (PAYOUT_PERCENT as int) / 100
}

/// The winning outcome derived from a raw clock reading: the reading is
/// coarsened by 100 and its parity picks the outcome (`Big` on odd).
pub open spec fn winning_bet_of(now: u64) -> Bet {
    if (now / 100) % 2 > 0 {
        Bet::Big
    } else {
        Bet::Small
    }
}

/// The settlement results a reveal writes: one `(participant, won)` pair per
/// record, in record order, with `won == (record.bet == win)`.
pub open spec fn settlement_of(s: Seq<BetItem>, win: Bet) -> Seq<(u64, bool)> {
    Seq::new(s.len(), |i: int| (s[i].u, s[i].bet == win))
}

/// The transfer owed for one winning record: the participant and the payout.
pub open spec fn payout_entry(b: BetItem) -> (u64, u128) {
    (b.u, payout_amount(b.amount) as u128)
}

/// The transfers a reveal owes: one `(participant, payout)` pair per winning
/// record, in record order.
pub open spec fn payouts_of(s: Seq<BetItem>, win: Bet) -> Seq<(u64, u128)>
    decreases s.len(),
{
    if s.len() == 0 {
        Seq::empty()
    } else {
        let head = payouts_of(s.drop_last(), win);
        let b = s.last();
        if b.bet == win {
            head.push(payout_entry(b))
        } else {
            head
        }
    }
}

/// Well-formedness of a ledger state: unique participant ids, stakes within
/// the accepted range, and settlement results that exist only once revealed,
/// at most once per participant, and only for participants with records.
pub open spec fn wf_view(v: RoundView) -> bool {
    &&& unique_ids(v.bets)
    &&& (forall|i: int|
        0 <= i < v.bets.len() ==> MIN_BET_AMOUNT <= #[trigger] v.bets[i].amount <= MAX_BET_AMOUNT)
    &&& (v.win_bet is None ==> v.results.len() == 0)
    &&& (forall|i: int, j: int|
        0 <= i < j < v.results.len() ==> v.results[i].0 != v.results[j].0)
    &&& (forall|i: int|
        0 <= i < v.results.len() ==> has_bet_id(v.bets, #[trigger] v.results[i].0))
}

/// The freshly initialized ledger state: empty and open.
pub open spec fn init_view(operator: u64) -> RoundView {
    RoundView { bets: Seq::empty(), results: Seq::empty(), win_bet: None, operator }
}

/// What placing a bet does: the new state and the outcome of the call.
/// A stake below the minimum is refused first; then a second record for the
/// same participant; otherwise the record is appended.
pub open spec fn spec_bet(
    v: RoundView,
    account_id: u64,
    bet: Bet,
    amount: u128,
    created_at: u64,
) -> (RoundView, Result<(), BetError>) {
    if amount < MIN_BET_AMOUNT {
        (v, Err(BetError::InsufficientStake))
    } else if has_bet_id(v.bets, account_id) {
        (v, Err(BetError::DuplicateBet))
    } else {
        let item = BetItem { u: account_id, bet, amount, created_at };
        (RoundView { bets: v.bets.push(item), ..v }, Ok(()))
    }
}

/// What revealing does: the new state and the outcome of the call, whose
/// success value is the list of owed payout transfers. Only the operator may
/// reveal, and only while the winning outcome is unset.
pub open spec fn spec_reveal(v: RoundView, caller: u64, now: u64) -> (
    RoundView,
    Result<Seq<(u64, u128)>, BetError>,
) {
    if caller != v.operator {
        (v, Err(BetError::Unauthorized))
    } else if v.win_bet is Some {
        (v, Err(BetError::RoundAlreadyRevealed))
    } else {
        let w = winning_bet_of(now);
        (
            RoundView { results: settlement_of(v.bets, w), win_bet: Some(w), ..v },
            Ok(payouts_of(v.bets, w)),
        )
    }
}

/// What resetting does: for the operator, all records and results are
/// discarded and the winning outcome is unset, whatever the prior state.
pub open spec fn spec_reset(v: RoundView, caller: u64) -> (RoundView, Result<(), BetError>) {
    if caller != v.operator {
        (v, Err(BetError::Unauthorized))
    } else {
        (init_view(v.operator), Ok(()))
    }
}

/// What the full query returns: every record in order, paired with its
/// settlement flag where one exists.
pub open spec fn spec_bet_results(v: RoundView) -> Seq<(BetItem, Option<bool>)> {
    Seq::new(v.bets.len(), |i: int| (v.bets[i], lookup_result(v.results, v.bets[i].u)))
}

/// What the single-participant query returns: the participant's record, if
/// any, paired with its settlement flag where one exists.
pub open spec fn spec_my_bets(v: RoundView, account_id: u64) -> Option<(BetItem, Option<bool>)> {
    if has_bet_id(v.bets, account_id) {
        Some((record_for(v.bets, account_id), lookup_result(v.results, account_id)))
    } else {
        None
    }
}

/// The round ledger. One instance owns the whole state of the current round.
pub struct SimpleTaiXiu {
    bets: Vec<BetItem>,
    result_bets: Vec<(u64, bool)>,
    win_bet: Option<Bet>,
    operator: u64,
}

impl View for SimpleTaiXiu {
    type V = RoundView;

    closed spec fn view(&self) -> RoundView {
        RoundView {
            bets: self.bets@,
            results: self.result_bets@,
            win_bet: self.win_bet,
            operator: self.operator,
        }
    }
}

impl SimpleTaiXiu {
    /// Well-formedness of the ledger; established by the constructors and
    /// preserved by every operation.
    pub open spec fn wf(&self) -> bool {
        wf_view(self@)
    }

    /// A fresh, empty, open round whose operator is `operator`.
    pub fn new(operator: u64) -> (r: Self)
        ensures
            r.wf(),
            r@ == init_view(operator),
    {
        let r = SimpleTaiXiu {
            bets: Vec::new(),
            result_bets: Vec::new(),
            win_bet: None,
            operator,
        };
        proof {
            assert(r@ =~= init_view(operator));
        }
        r
    }

    /// The index of `account_id`'s record, if it has one.
    fn find_bet(&self, account_id: u64) -> (r: Option<usize>)
        ensures
            match r {
                Some(i) => i < self@.bets.len() && self@.bets[i as int].u == account_id,
                None => !has_bet_id(self@.bets, account_id),
            },
    {
        let mut i: usize = 0;
        while i < self.bets.len()
            invariant
                i <= self.bets.len(),
                forall|j: int| 0 <= j < i ==> self.bets@[j].u != account_id,
            decreases self.bets.len() - i,
        {
            if self.bets[i].u == account_id {
                return Some(i);
            }
            i = i + 1;
        }
        None
    }

    /// The settlement flag stored for `account_id`, if any.
    fn find_result(&self, account_id: u64) -> (r: Option<bool>)
        ensures
            r == lookup_result(self@.results, account_id),
    {
        let mut i: usize = 0;
        proof {
            assert(self@.results.skip(0) =~= self@.results);
        }
        while i < self.result_bets.len()
            invariant
                i <= self.result_bets.len(),
                lookup_result(self@.results, account_id) == lookup_result(
                    self@.results.skip(i as int),
                    account_id,
                ),
            decreases self.result_bets.len() - i,
        {
            let e = self.result_bets[i];
            proof {
                assert(self@.results.skip(i as int)[0] == e);
            }
            if e.0 == account_id {
                return Some(e.1);
            }
            proof {
                assert(self@.results.skip(i as int).drop_first() =~= self@.results.skip(
                    i as int + 1,
                ));
            }
            i = i + 1;
        }
        None
    }

    /// Place a bet for `account_id` on `bet`, staking `amount` at clock
    /// reading `created_at`. Exactly [`spec_bet`]: refused with
    /// `InsufficientStake` below the minimum, with `DuplicateBet` for a
    /// second record in the same round, and appends the record otherwise.
    /// The stake cap is the machine limit under which a later payout
    /// computation cannot overflow.
    pub fn bet(&mut self, account_id: u64, bet: Bet, amount: u128, created_at: u64) -> (r: Result<
        (),
        BetError,
    >)
        requires
            old(self).wf(),
            amount <= MAX_BET_AMOUNT,
        ensures
            final(self).wf(),
            final(self)@ == spec_bet(old(self)@, account_id, bet, amount, created_at).0,
            r == spec_bet(old(self)@, account_id, bet, amount, created_at).1,
    {
        if amount < MIN_BET_AMOUNT {
            return Err(BetError::InsufficientStake);
        }
        if self.find_bet(account_id).is_some() {
            return Err(BetError::DuplicateBet);
        }
        let item = BetItem { u: account_id, bet, amount, created_at };
        self.bets.push(item);
        proof {
            assert(self@ =~= spec_bet(old(self)@, account_id, bet, amount, created_at).0);
            assert forall|i: int, j: int| 0 <= i < j < self@.bets.len() implies self@.bets[i].u
                != self@.bets[j].u by {
                if j == self@.bets.len() - 1 {
                    assert(self@.bets[i] == old(self)@.bets[i]);
                }
            }
            assert forall|i: int|
                0 <= i < self@.bets.len() implies MIN_BET_AMOUNT <= #[trigger] self@.bets[i].amount
                <= MAX_BET_AMOUNT by {
                if i < self@.bets.len() - 1 {
                    assert(self@.bets[i] == old(self)@.bets[i]);
                }
            }
            assert forall|i: int| 0 <= i < self@.results.len() implies has_bet_id(
                self@.bets,
                #[trigger] self@.results[i].0,
            ) by {
                assert(has_bet_id(old(self)@.bets, old(self)@.results[i].0));
                let k = choose|k: int|
                    0 <= k < old(self)@.bets.len() && old(self)@.bets[k].u == old(
                        self,
                    )@.results[i].0;
                assert(self@.bets[k] == old(self)@.bets[k]);
            }
        }
        Ok(())
    }

    /// Reveal the round: derive the winning outcome from the clock reading
    /// `now`, record every participant's settlement flag, and return the
    /// payout transfers owed to the winners, for the host to issue. Exactly
    /// [`spec_reveal`]: only the operator, only while the outcome is unset.
    pub fn reveal_result(&mut self, caller: u64, now: u64) -> (r: Result<
        Vec<(u64, u128)>,
        BetError,
    >)
        requires
            old(self).wf(),
        ensures
            final(self).wf(),
            final(self)@ == spec_reveal(old(self)@, caller, now).0,
            (match r {
                Ok(p) => spec_reveal(old(self)@, caller, now).1 == Ok::<_, BetError>(p@),
                Err(e) => spec_reveal(old(self)@, caller, now).1 == Err::<Seq<(u64, u128)>, _>(e),
            }),
    {
        if caller != self.operator {
            return Err(BetError::Unauthorized);
        }
        if self.win_bet.is_some() {
            return Err(BetError::RoundAlreadyRevealed);
        }
        let win_bet = if (now / 100) % 2 > 0 {
            Bet::Big
        } else {
            Bet::Small
        };
        let ghost w = winning_bet_of(now);
        let mut results: Vec<(u64, bool)> = Vec::new();
        let mut payouts: Vec<(u64, u128)> = Vec::new();
        let n = self.bets.len();
        let mut idx: usize = 0;
        proof {
            assert(self@.bets.take(0) =~= Seq::<BetItem>::empty());
            assert(results@ =~= settlement_of(self@.bets.take(0), w));
        }
        while idx < n
            invariant
                idx <= n,
                n == self.bets.len(),
                wf_view(self@),
                win_bet == w,
                results@ == settlement_of(self.bets@.take(idx as int), w),
                payouts@ == payouts_of(self.bets@.take(idx as int), w),
            decreases n - idx,
        {
            let b = self.bets[idx];
            let win = b.bet == win_bet;
            results.push((b.u, win));
            if win {
                proof {
                    assert(b.amount <= MAX_BET_AMOUNT);
                    assert(b.amount * (PAYOUT_PERCENT as u128) <= MAX_BET_AMOUNT * 95) by (nonlinear_arith)
                        requires
                            b.amount <= MAX_BET_AMOUNT,
                    ;
                    assert(b.amount * (PAYOUT_PERCENT as u128) / 100 <= MAX_BET_AMOUNT * 95 / 100)
                        by (nonlinear_arith)
                        requires
                            b.amount * (PAYOUT_PERCENT as u128) <= MAX_BET_AMOUNT * 95,
                    ;
                }
                let pay: u128 = b.amount + b.amount * (PAYOUT_PERCENT as u128) / 100;
                payouts.push((b.u, pay));
            }
            proof {
                let s1 = self.bets@.take(idx as int + 1);
                assert(s1.drop_last() =~= self.bets@.take(idx as int));
                assert(s1.last() == self.bets@[idx as int]);
                assert(results@ =~= settlement_of(s1, w));
                assert(payouts@ =~= payouts_of(s1, w));
            }
            idx = idx + 1;
        }
        self.win_bet = Some(win_bet);
        self.result_bets = results;
        proof {
            assert(self.bets@.take(n as int) =~= self.bets@);
            assert(self@ =~= spec_reveal(old(self)@, caller, now).0);
            assert forall|i: int| 0 <= i < self@.results.len() implies has_bet_id(
                self@.bets,
                #[trigger] self@.results[i].0,
            ) by {
                assert(self@.results[i].0 == self@.bets[i].u);
            }
        }
        Ok(payouts)
    }

    /// Start a new round: discard all records and results and unset the
    /// winning outcome, whatever the prior state. Exactly [`spec_reset`]:
    /// only the operator may reset.
    pub fn start_new_match(&mut self, caller: u64) -> (r: Result<(), BetError>)
        requires
            old(self).wf(),
        ensures
            final(self).wf(),
            final(self)@ == spec_reset(old(self)@, caller).0,
            r == spec_reset(old(self)@, caller).1,
    {
        if caller != self.operator {
            return Err(BetError::Unauthorized);
        }
        self.bets = Vec::new();
        self.result_bets = Vec::new();
        self.win_bet = None;
        proof {
            assert(self@ =~= spec_reset(old(self)@, caller).0);
        }
        Ok(())
    }

    /// Every bet record of the current round, in insertion order, each paired
    /// with its settlement flag where one exists (so `None` for every record
    /// while the round is open). Read-only. Exactly [`spec_bet_results`].
    pub fn get_bet_results(&self) -> (r: Vec<(BetItem, Option<bool>)>)
        requires
            self.wf(),
        ensures
            r@ == spec_bet_results(self@),
    {
        let mut r: Vec<(BetItem, Option<bool>)> = Vec::new();
        let mut idx: usize = 0;
        while idx < self.bets.len()
            invariant
                idx <= self.bets.len(),
                r@.len() == idx,
                forall|j: int|
                    0 <= j < idx ==> r@[j] == (
                        self.bets@[j],
                        lookup_result(self.result_bets@, self.bets@[j].u),
                    ),
            decreases self.bets.len() - idx,
        {
            let b = self.bets[idx];
            let res = self.find_result(b.u);
            r.push((b, res));
            idx = idx + 1;
        }
        proof {
            assert(r@ =~= spec_bet_results(self@));
        }
        r
    }

    /// `account_id`'s bet record, if it has one this round, paired with its
    /// settlement flag where one exists. Read-only. Exactly [`spec_my_bets`].
    pub fn get_my_bets(&self, account_id: u64) -> (r: Option<(BetItem, Option<bool>)>)
        requires
            self.wf(),
        ensures
            r == spec_my_bets(self@, account_id),
    {
        match self.find_bet(account_id) {
            None => None,
            Some(i) => {
                let b = self.bets[i];
                let res = self.find_result(account_id);
                proof {
                    let j = choose|j: int|
                        0 <= j < self@.bets.len() && self@.bets[j].u == account_id;
                    if j < i as int {
                        assert(self@.bets[j].u != self@.bets[i as int].u);
                    }
                    if (i as int) < j {
                        assert(self@.bets[i as int].u != self@.bets[j].u);
                    }
                    assert(record_for(self@.bets, account_id) == b);
                }
                Some((b, res))
            },
        }
    }

    /// Rebuild a ledger from raw parts, as a host that persists the state
    /// between calls hands them back. Returns the ledger exactly when the
    /// parts form a well-formed state ([`wf_view`]), and `None` otherwise.
    pub fn from_parts(
        bets: Vec<BetItem>,
        result_bets: Vec<(u64, bool)>,
        win_bet: Option<Bet>,
        operator: u64,
    ) -> (r: Option<SimpleTaiXiu>)
        ensures
            ({
                let v = RoundView { bets: bets@, results: result_bets@, win_bet, operator };
                &&& (r is Some <==> wf_view(v))
                &&& (r matches Some(c) ==> c@ == v && c.wf())
            }),
    {
        let ghost v = RoundView { bets: bets@, results: result_bets@, win_bet, operator };
        let c = SimpleTaiXiu { bets, result_bets, win_bet, operator };
        proof {
            assert(c@ =~= v);
        }
        if c.win_bet.is_none() && c.result_bets.len() > 0 {
            return None;
        }
        let mut i: usize = 0;
        while i < c.bets.len()
            invariant
                i <= c.bets.len(),
                c.bets@ == v.bets,
                v == (RoundView { bets: bets@, results: result_bets@, win_bet, operator }),
                forall|p: int, q: int|
                    0 <= p < q < c.bets@.len() && p < i ==> c.bets@[p].u != c.bets@[q].u,
                forall|p: int|
                    0 <= p < i ==> MIN_BET_AMOUNT <= #[trigger] c.bets@[p].amount
                        <= MAX_BET_AMOUNT,
            decreases c.bets.len() - i,
        {
            let b = c.bets[i];
            if b.amount < MIN_BET_AMOUNT || b.amount > MAX_BET_AMOUNT {
                proof {
                    assert(!(MIN_BET_AMOUNT <= v.bets[i as int].amount <= MAX_BET_AMOUNT));
                    assert(!wf_view(v));
                }
                return None;
            }
            let mut j: usize = i + 1;
            while j < c.bets.len()
                invariant
                    i < j <= c.bets.len(),
                    i < c.bets.len(),
                    c.bets@ == v.bets,
                    v == (RoundView { bets: bets@, results: result_bets@, win_bet, operator }),
                    forall|q: int| i < q < j ==> c.bets@[i as int].u != c.bets@[q].u,
                decreases c.bets.len() - j,
            {
                if c.bets[i].u == c.bets[j].u {
                    proof {
                        assert(v.bets[i as int].u == v.bets[j as int].u);
                        assert(!unique_ids(v.bets));
                    }
                    return None;
                }
                j = j + 1;
            }
            i = i + 1;
        }
        let mut k: usize = 0;
        while k < c.result_bets.len()
            invariant
                k <= c.result_bets.len(),
                c.bets@ == v.bets,
                c.result_bets@ == v.results,
                v == (RoundView { bets: bets@, results: result_bets@, win_bet, operator }),
                forall|p: int, q: int|
                    0 <= p < q < c.result_bets@.len() && p < k ==> c.result_bets@[p].0
                        != c.result_bets@[q].0,
                forall|p: int|
                    0 <= p < k ==> has_bet_id(c.bets@, #[trigger] c.result_bets@[p].0),
            decreases c.result_bets.len() - k,
        {
            if c.find_bet(c.result_bets[k].0).is_none() {
                proof {
                    assert(!has_bet_id(v.bets, v.results[k as int].0));
                    assert(!wf_view(v));
                }
                return None;
            }
            let mut j: usize = k + 1;
            while j < c.result_bets.len()
                invariant
                    k < j <= c.result_bets.len(),
                    k < c.result_bets.len(),
                    c.result_bets@ == v.results,
                    v == (RoundView { bets: bets@, results: result_bets@, win_bet, operator }),
                    forall|q: int| k < q < j ==> c.result_bets@[k as int].0 != c.result_bets@[q].0,
                decreases c.result_bets.len() - j,
            {
                if c.result_bets[k].0 == c.result_bets[j].0 {
                    proof {
                        assert(v.results[k as int].0 == v.results[j as int].0);
                        assert(!wf_view(v));
                    }
                    return None;
                }
                j = j + 1;
            }
            k = k + 1;
        }
        Some(c)
    }

    /// The bet records of the current round, in insertion order.
    pub fn bets(&self) -> (r: &Vec<BetItem>)
        ensures
            r@ == self@.bets,
    {
        &self.bets
    }

    /// The stored settlement results, one pair per record settled at reveal.
    pub fn result_bets(&self) -> (r: &Vec<(u64, bool)>)
        ensures
            r@ == self@.results,
    {
        &self.result_bets
    }

    /// The winning outcome of the current round, `None` while it is open.
    pub fn winning_bet(&self) -> (r: Option<Bet>)
        ensures
            r == self@.win_bet,
    {
        self.win_bet
    }

    /// The identity allowed to reveal and reset.
    pub fn operator(&self) -> (r: u64)
        ensures
            r == self@.operator,
    {
        self.operator
    }
}

impl Default for SimpleTaiXiu {
    /// A fresh, empty, open round whose operator is participant `0`.
    fn default() -> (r: Self)
        ensures
            r.wf(),
            r@ == init_view(0),
    {
        SimpleTaiXiu::new(0)
    }
}

} // verus!
