use vstd::arithmetic::div_mod::{
    lemma_div_is_ordered, lemma_div_multiples_vanish, lemma_div_pos_is_pos,
    lemma_fundamental_div_mod,
};
use vstd::prelude::*;

use crate::errors::GameError;
use crate::game::{is_authority, is_ended, not_yet_distributed, Game, GameModel, GameStatus};
use crate::identity::Identity;

verus! {

/// The sum of the first `k` values of `s`.
pub open spec fn sum_first(s: Seq<u64>, k: int) -> int
    decreases k,
{
    if k <= 0 {
        0
    } else {
        sum_first(s, k - 1) + s[k - 1]
    }
}

/// The sum of all values of `s`.
pub open spec fn sum_u64(s: Seq<u64>) -> int {
    sum_first(s, s.len() as int)
}

/// What participant `i` is paid from `pot` under scores `svals`: the full
/// product `score * pot` divided by the total score, or an equal split of
/// the pot when every score is zero.
pub open spec fn payout_at(pot: u64, svals: Seq<u64>, i: int) -> int
    recommends
        0 <= i < svals.len(),
{
    let total = sum_u64(svals);
    if total > 0 {
        (svals[i] * pot) / total
    } else {
        pot as int / svals.len() as int
    }
}

/// The sum of the first `k` payouts.
pub open spec fn payout_sum(pot: u64, svals: Seq<u64>, k: int) -> int
    decreases k,
{
    if k <= 0 {
        0
    } else {
        payout_sum(pot, svals, k - 1) + payout_at(pot, svals, k - 1)
    }
}

/// The score values of a supplied `(identity, score)` list, in order.
pub open spec fn score_values(pairs: Seq<(Identity, u64)>) -> Seq<u64> {
    Seq::new(pairs.len(), |i: int| pairs[i].1)
}

/// The supplied score list and account references line up with the recorded
/// participants, one each, in join order.
pub open spec fn pairs_match(
    g: GameModel,
    pairs: Seq<(Identity, u64)>,
    keys: Seq<Identity>,
) -> bool {
    &&& pairs.len() == g.participants.len()
    &&& keys.len() == g.participants.len()
    &&& forall|i: int| #![trigger pairs[i]]
        0 <= i < g.participants.len() ==> pairs[i].0 == g.participants[i]
    &&& forall|i: int| #![trigger keys[i]]
        0 <= i < g.participants.len() ==> keys[i] == g.participants[i]
}

/// When a score-weighted distribution succeeds: not yet distributed, ended,
/// called by the authority, at least one participant, and the supplied lists
/// match the recorded participants.
pub open spec fn distribute_ok(
    g: GameModel,
    caller: Identity,
    pairs: Seq<(Identity, u64)>,
    keys: Seq<Identity>,
) -> bool {
    &&& not_yet_distributed(g)
    &&& is_ended(g)
    &&& is_authority(caller, g)
    &&& g.participants.len() > 0
    &&& pairs_match(g, pairs, keys)
}

/// The error a failed score-weighted distribution returns, checked in this
/// order: repeat distribution, phase, caller, empty pool, mismatched lists.
pub open spec fn distribute_err(
    g: GameModel,
    caller: Identity,
    pairs: Seq<(Identity, u64)>,
    keys: Seq<Identity>,
) -> GameError {
    if g.distributed {
        GameError::AlreadyDistributed
    } else if !is_ended(g) {
        GameError::GameNotEnded
    } else if !is_authority(caller, g) {
        GameError::Unauthorized
    } else if g.participants.len() == 0 {
        GameError::NoParticipants
    } else {
        GameError::InvalidAccountData
    }
}

/// The pool after a successful score-weighted distribution: scores recorded,
/// pots zeroed, phase `Completed`, marked distributed.
pub open spec fn scores_settled(g: GameModel, svals: Seq<u64>) -> GameModel {
    GameModel {
        pot: 0,
        fee_pot: 0,
        scores: svals,
        status: GameStatus::Completed,
        distributed: true,
        ..g
    }
}

/// When an authority-assigned payout succeeds: not yet distributed, ended,
/// called by the authority, and the amount is covered by the pot.
pub open spec fn winner_ok(g: GameModel, caller: Identity, amount: u64) -> bool {
    &&& not_yet_distributed(g)
    &&& is_ended(g)
    &&& is_authority(caller, g)
    &&& amount <= g.pot
}

/// The error a failed authority-assigned payout returns, checked in this
/// order: repeat distribution, phase, caller, uncovered amount.
pub open spec fn winner_err(g: GameModel, caller: Identity, amount: u64) -> GameError {
    if g.distributed {
        GameError::AlreadyDistributed
    } else if !is_ended(g) {
        GameError::GameNotEnded
    } else if !is_authority(caller, g) {
        GameError::Unauthorized
    } else {
        GameError::InsufficientFunds
    }
}

/// The pool after a successful authority-assigned payout: the winner is
/// recorded, pots zeroed, phase `Completed`, marked distributed.
pub open spec fn winner_settled(g: GameModel, winner: Identity) -> GameModel {
    GameModel {
        pot: 0,
        fee_pot: 0,
        status: GameStatus::Completed,
        winner: Some(winner),
        distributed: true,
        ..g
    }
}

/// Appending a value adds it to the sum.
pub proof fn lemma_sum_push(s: Seq<u64>, x: u64)
    ensures
        sum_u64(s.push(x)) == sum_u64(s) + x,
{
    lemma_sum_first_agree(s.push(x), s, s.len() as int);
}

/// Two sequences that agree on their first `k` values have the same
/// `sum_first` at `k`.
pub proof fn lemma_sum_first_agree(s1: Seq<u64>, s2: Seq<u64>, k: int)
    requires
        forall|j: int| 0 <= j < k ==> s1[j] == s2[j],
    ensures
        sum_first(s1, k) == sum_first(s2, k),
    decreases k,
{
    if k > 0 {
        lemma_sum_first_agree(s1, s2, k - 1);
    }
}

/// A partial sum of unsigned values is at least zero.
pub proof fn lemma_sum_first_nonneg(s: Seq<u64>, k: int)
    requires
        0 <= k <= s.len(),
    ensures
        sum_first(s, k) >= 0,
    decreases k,
{
    if k > 0 {
        lemma_sum_first_nonneg(s, k - 1);
    }
}

/// A partial sum of unsigned values never exceeds the full sum.
pub proof fn lemma_sum_first_le_total(s: Seq<u64>, k: int)
    requires
        0 <= k <= s.len(),
    ensures
        sum_first(s, k) <= sum_u64(s),
    decreases s.len() - k,
{
    if k < s.len() {
        lemma_sum_first_le_total(s, k + 1);
    }
}

/// Scaled form of the payout bound: with a positive total score, the first
/// `k` payouts, taken together `total` times, never exceed the first `k`
/// scores taken together `pot` times.
proof fn lemma_payout_sum_scaled(pot: u64, svals: Seq<u64>, k: int)
    requires
        0 <= k <= svals.len(),
        sum_u64(svals) > 0,
    ensures
        payout_sum(pot, svals, k) >= 0,
        payout_sum(pot, svals, k) * sum_u64(svals) <= sum_first(svals, k) * pot,
    decreases k,
{
    let t = sum_u64(svals);
    if k <= 0 {
        assert(payout_sum(pot, svals, k) * t == 0) by (nonlinear_arith)
            requires
                payout_sum(pot, svals, k) == 0,
        ;
        assert(sum_first(svals, k) * pot == 0) by (nonlinear_arith)
            requires
                sum_first(svals, k) == 0,
        ;
    } else {
        lemma_payout_sum_scaled(pot, svals, k - 1);
        let a = payout_sum(pot, svals, k - 1);
        let sh = payout_at(pot, svals, k - 1);
        let sp = svals[k - 1] * pot;
        lemma_div_pos_is_pos(sp, t);
        lemma_fundamental_div_mod(sp, t);
        // t * (sp / t) == sp - sp % t <= sp
        assert(t * sh <= sp);
        assert((a + sh) * t == a * t + sh * t) by (nonlinear_arith);
        assert(sh * t == t * sh) by (nonlinear_arith);
        assert((sum_first(svals, k - 1) + svals[k - 1]) * pot == sum_first(svals, k - 1) * pot
            + svals[k - 1] * pot) by (nonlinear_arith);
    }
}

/// The sum of the first `k` equal-split payouts is `k` shares.
proof fn lemma_equal_split_sum(pot: u64, svals: Seq<u64>, k: int)
    requires
        0 <= k <= svals.len(),
        svals.len() > 0,
        sum_u64(svals) <= 0,
    ensures
        payout_sum(pot, svals, k) == k * (pot as int / svals.len() as int),
    decreases k,
{
    let q = pot as int / svals.len() as int;
    if k > 0 {
        lemma_equal_split_sum(pot, svals, k - 1);
        assert(k * q == (k - 1) * q + q) by (nonlinear_arith);
    } else {
        assert(k * q == 0) by (nonlinear_arith)
            requires
                k == 0,
        ;
    }
}

/// No matter the scores, the first `k` payouts taken together stay within
/// the pot.
pub proof fn lemma_payout_sum_le_pot(pot: u64, svals: Seq<u64>, k: int)
    requires
        0 <= k <= svals.len(),
        svals.len() > 0,
    ensures
        0 <= payout_sum(pot, svals, k) <= pot,
{
    let t = sum_u64(svals);
    let n = svals.len() as int;
    if t > 0 {
        lemma_payout_sum_scaled(pot, svals, k);
        lemma_sum_first_le_total(svals, k);
        lemma_sum_first_nonneg(svals, k);
        assert(sum_first(svals, k) * pot <= t * pot) by (nonlinear_arith)
            requires
                sum_first(svals, k) <= t,
                pot >= 0,
        ;
        assert(payout_sum(pot, svals, k) <= pot) by (nonlinear_arith)
            requires
                payout_sum(pot, svals, k) * t <= t * pot,
                t >= 1,
        ;
    } else {
        lemma_sum_first_nonneg(svals, svals.len() as int);
        lemma_equal_split_sum(pot, svals, k);
        let q = pot as int / n;
        lemma_div_pos_is_pos(pot as int, n);
        lemma_fundamental_div_mod(pot as int, n);
        assert(k * q >= 0) by (nonlinear_arith)
            requires
                k >= 0,
                q >= 0,
        ;
        assert(k * q <= n * q) by (nonlinear_arith)
            requires
                k <= n,
                q >= 0,
        ;
    }
}

/// Lower counterpart of the scaled bound: each payout loses less than one
/// `total`-th share to truncation.
proof fn lemma_payout_sum_scaled_lower(pot: u64, svals: Seq<u64>, k: int)
    requires
        0 <= k <= svals.len(),
        sum_u64(svals) > 0,
    ensures
        payout_sum(pot, svals, k) * sum_u64(svals) >= sum_first(svals, k) * pot - k * (sum_u64(
            svals,
        ) - 1),
    decreases k,
{
    let t = sum_u64(svals);
    if k <= 0 {
        assert(payout_sum(pot, svals, k) * t == 0) by (nonlinear_arith)
            requires
                payout_sum(pot, svals, k) == 0,
        ;
        assert(sum_first(svals, k) * pot == 0) by (nonlinear_arith)
            requires
                sum_first(svals, k) == 0,
        ;
    } else {
        lemma_payout_sum_scaled_lower(pot, svals, k - 1);
        let a = payout_sum(pot, svals, k - 1);
        let sh = payout_at(pot, svals, k - 1);
        let sp = svals[k - 1] * pot;
        lemma_fundamental_div_mod(sp, t);
        // t * (sp / t) == sp - sp % t >= sp - (t - 1)
        assert(t * sh >= sp - (t - 1));
        assert((a + sh) * t == a * t + sh * t) by (nonlinear_arith);
        assert(sh * t == t * sh) by (nonlinear_arith);
        assert((sum_first(svals, k - 1) + svals[k - 1]) * pot == sum_first(svals, k - 1) * pot
            + svals[k - 1] * pot) by (nonlinear_arith);
        assert((k - 1) * (t - 1) + (t - 1) == k * (t - 1)) by (nonlinear_arith);
    }
}

/// The truncation loss is bounded: what the payouts leave of the pot is
/// always smaller than the number of participants.
pub proof fn lemma_pot_leftover_small(pot: u64, svals: Seq<u64>)
    requires
        svals.len() > 0,
    ensures
        pot - payout_sum(pot, svals, svals.len() as int) < svals.len(),
{
    let t = sum_u64(svals);
    let n = svals.len() as int;
    let paid = payout_sum(pot, svals, n);
    if t > 0 {
        lemma_payout_sum_scaled_lower(pot, svals, n);
        // paid * t >= t * pot - n * (t - 1) > t * (pot - n)
        assert(paid > pot - n) by (nonlinear_arith)
            requires
                paid * t >= t * pot - n * (t - 1),
                t >= 1,
                n > 0,
        ;
    } else {
        lemma_equal_split_sum(pot, svals, n);
        let q = pot as int / n;
        lemma_fundamental_div_mod(pot as int, n);
        vstd::arithmetic::div_mod::lemma_mod_division_less_than_divisor(pot as int, n);
        assert(n * q == pot - pot as int % n);
    }
}

/// One payout lies between zero and the whole pot.
pub proof fn lemma_payout_at_in_range(pot: u64, svals: Seq<u64>, i: int)
    requires
        0 <= i < svals.len(),
    ensures
        0 <= payout_at(pot, svals, i) <= pot,
{
    let t = sum_u64(svals);
    let n = svals.len() as int;
    if t > 0 {
        let sp = svals[i] * pot;
        lemma_div_pos_is_pos(sp, t);
        // svals[i] <= t
        lemma_sum_first_nonneg(svals, i);
        lemma_sum_first_le_total(svals, i + 1);
        assert(sum_first(svals, i + 1) == sum_first(svals, i) + svals[i]);
        assert(svals[i] <= t);
        assert(svals[i] * pot <= t * pot) by (nonlinear_arith)
            requires
                svals[i] <= t,
                pot >= 0,
        ;
        lemma_div_is_ordered(sp, t * pot, t);
        lemma_div_multiples_vanish(pot as int, t);
    } else {
        lemma_div_pos_is_pos(pot as int, n);
        lemma_fundamental_div_mod(pot as int, n);
        assert(n * (pot as int / n) <= pot);
        assert(pot as int / n <= n * (pot as int / n)) by (nonlinear_arith)
            requires
                n >= 1,
                pot as int / n >= 0,
        ;
    }
}

/// What one score-weighted distribution pays: one pot payout per
/// participant in join order, one equal fee share for each, and the two
/// remainders that integer division leaves in the pool for the authority to
/// reclaim.
#[derive(Debug)]
pub struct Distribution {
    /// Pot payout per participant, in join order.
    pub payouts: Vec<u64>,
    /// Fee-pot share paid to each participant.
    pub fee_share: u64,
    /// What remains of the pot after the payouts.
    pub pot_leftover: u64,
    /// What remains of the fee pot after the fee shares.
    pub fee_leftover: u64,
}

/// What one authority-assigned payout moves and leaves behind.
#[derive(Debug)]
pub struct WinnerPayout {
    /// The amount moved to the winner.
    pub amount: u64,
    /// What remains of the pot.
    pub pot_leftover: u64,
    /// The whole fee pot, which this shape does not touch.
    pub fee_leftover: u64,
}

impl Game {
    /// Pays the whole pot out by score, and the fee pot evenly, after the
    /// round has ended.  Succeeds exactly when no distribution has happened
    /// yet, the pool is ended, the caller is the authority, the pool is not
    /// empty, and the supplied `(identity, score)` list and account
    /// references match the recorded participants one for one in join
    /// order; any mismatch rejects the whole call with no partial payout.
    /// On success participant `i` is paid `scores[i] * pot / total` (an
    /// equal split `pot / n` when the total score is zero) plus a fee share
    /// `fee_pot / n`; the remainders of both divisions are returned, never
    /// silently dropped, so that every unit of the two pots is accounted
    /// for.  The pool is then completed with zeroed pots and no further
    /// distribution is accepted.
    #[verifier::loop_isolation(false)]
    pub fn distribute_scores(
        &mut self,
        caller: Identity,
        scores: &Vec<(Identity, u64)>,
        account_keys: &Vec<Identity>,
    ) -> (r: Result<Distribution, GameError>)
        requires
            old(self)@.wf(),
        ensures
            final(self)@.wf(),
            r is Ok <==> distribute_ok(old(self)@, caller, scores@, account_keys@),
            r matches Ok(d) ==> ({
                let svals = score_values(scores@);
                let n = old(self)@.participants.len() as int;
                &&& final(self)@ == scores_settled(old(self)@, svals)
                &&& d.payouts@.len() == n
                &&& forall|i: int| 0 <= i < n ==> d.payouts@[i] == payout_at(
                    old(self)@.pot,
                    svals,
                    i,
                )
                &&& d.fee_share == old(self)@.fee_pot as int / n
                &&& sum_u64(d.payouts@) + d.pot_leftover == old(self)@.pot
                &&& n * d.fee_share + d.fee_leftover == old(self)@.fee_pot
                &&& d.pot_leftover < n
                &&& d.fee_leftover < n
            }),
            r is Err ==> final(self)@ == old(self)@,
            r matches Err(e) ==> e == distribute_err(old(self)@, caller, scores@, account_keys@),
    {
        if self.distributed {
            return Err(GameError::AlreadyDistributed);
        }
        if !(self.status == GameStatus::Ended) {
            return Err(GameError::GameNotEnded);
        }
        if !(caller == self.authority) {
            return Err(GameError::Unauthorized);
        }
        let n = self.participants.len();
        if n == 0 {
            return Err(GameError::NoParticipants);
        }
        if scores.len() != n || account_keys.len() != n {
            return Err(GameError::InvalidAccountData);
        }
        let ghost svals = score_values(scores@);
        // Every supplied pair and account reference must name the recorded
        // participant at its position.
        let mut i: usize = 0;
        while i < n
            invariant
                0 <= i <= n,
                n == self.participants@.len(),
                scores@.len() == n,
                account_keys@.len() == n,
                forall|j: int| #![trigger scores@[j]] 0 <= j < i ==> scores@[j].0
                    == self.participants@[j],
                forall|j: int| #![trigger account_keys@[j]] 0 <= j < i ==> account_keys@[j]
                    == self.participants@[j],
            decreases n - i,
        {
            let pk = self.participants[i];
            if !(scores[i].0 == pk) {
                return Err(GameError::InvalidAccountData);
            }
            if !(account_keys[i] == pk) {
                return Err(GameError::InvalidAccountData);
            }
            i = i + 1;
        }
        // The total score, exact in 128 bits: at most 65535 values of at
        // most 64 bits each.
        let mut total: u128 = 0;
        let mut i: usize = 0;
        while i < n
            invariant
                0 <= i <= n,
                n == scores@.len(),
                n <= u16::MAX,
                svals == score_values(scores@),
                total == sum_first(svals, i as int),
                total <= i * (u64::MAX as int),
            decreases n - i,
        {
            total = total + (scores[i].1 as u128);
            i = i + 1;
        }
        proof {
            assert(sum_u64(svals) == total);
        }
        let pot0 = self.pot;
        let fee0 = self.fee_pot;
        let n64 = n as u64;
        // The fee pot splits evenly; the remainder stays behind.
        proof {
            lemma_fundamental_div_mod(fee0 as int, n64 as int);
            lemma_div_pos_is_pos(fee0 as int, n64 as int);
        }
        let fee_share = fee0 / n64;
        let fee_used = n64 * fee_share;
        let fee_leftover = fee0 - fee_used;
        // One pot payout per participant, in join order.
        let mut payouts: Vec<u64> = Vec::new();
        let mut new_scores: Vec<u64> = Vec::new();
        let mut paid: u64 = 0;
        let mut i: usize = 0;
        while i < n
            invariant
                0 <= i <= n,
                n == scores@.len(),
                n == svals.len(),
                n > 0,
                n64 == n as u64,
                svals == score_values(scores@),
                total == sum_u64(svals),
                pot0 == self.pot,
                payouts@.len() == i,
                new_scores@.len() == i,
                forall|j: int| 0 <= j < i ==> payouts@[j] == payout_at(pot0, svals, j),
                forall|j: int| 0 <= j < i ==> new_scores@[j] == svals[j],
                paid == payout_sum(pot0, svals, i as int),
                sum_u64(payouts@) == paid,
                0 <= paid <= pot0,
            decreases n - i,
        {
            let s = scores[i].1;
            let share: u64;
            if total > 0 {
                proof {
                    assert((s as int) * (pot0 as int) < 0x100000000000000000000000000000000)
                        by (nonlinear_arith)
                        requires
                            s <= u64::MAX,
                            pot0 <= u64::MAX,
                    ;
                    lemma_payout_at_in_range(pot0, svals, i as int);
                }
                let num: u128 = (s as u128) * (pot0 as u128);
                share = (num / total) as u64;
            } else {
                share = pot0 / n64;
            }
            proof {
                assert(share == payout_at(pot0, svals, i as int));
                lemma_payout_sum_le_pot(pot0, svals, i + 1 as int);
                assert(payout_sum(pot0, svals, i + 1 as int) == paid + share);
                lemma_sum_push(payouts@, share);
            }
            paid = paid + share;
            payouts.push(share);
            new_scores.push(s);
            i = i + 1;
        }
        proof {
            lemma_pot_leftover_small(pot0, svals);
        }
        let pot_leftover = pot0 - paid;
        // Commit the new state: scores recorded, pots zeroed, completed.
        self.scores = new_scores;
        self.pot = 0;
        self.fee_pot = 0;
        self.status = GameStatus::Completed;
        self.distributed = true;
        proof {
            assert(self@.scores =~= svals);
            assert(self@ =~= scores_settled(old(self)@, svals));
        }
        Ok(
            Distribution {
                payouts,
                fee_share,
                pot_leftover,
                fee_leftover,
            },
        )
    }

    /// Moves one authority-assigned amount to one winner.  Succeeds exactly
    /// when no distribution has happened yet, the pool is ended, the caller
    /// is the authority, and the amount is covered by the pot; the winner is
    /// then recorded, the pool completed with zeroed pots, and the returned
    /// record says what the runtime must move and what stays behind: the
    /// rest of the pot and the whole untouched fee pot.  On any failure the
    /// pool is unchanged.
    pub fn distribute_winnings(
        &mut self,
        caller: Identity,
        winner_pubkey: Identity,
        winner_amount: u64,
    ) -> (r: Result<WinnerPayout, GameError>)
        requires
            old(self)@.wf(),
        ensures
            final(self)@.wf(),
            r is Ok <==> winner_ok(old(self)@, caller, winner_amount),
            r matches Ok(w) ==> ({
                &&& final(self)@ == winner_settled(old(self)@, winner_pubkey)
                &&& w.amount == winner_amount
                &&& w.amount + w.pot_leftover == old(self)@.pot
                &&& w.fee_leftover == old(self)@.fee_pot
            }),
            r is Err ==> final(self)@ == old(self)@,
            r matches Err(e) ==> e == winner_err(old(self)@, caller, winner_amount),
    {
        if self.distributed {
            return Err(GameError::AlreadyDistributed);
        }
        if !(self.status == GameStatus::Ended) {
            return Err(GameError::GameNotEnded);
        }
        if !(caller == self.authority) {
            return Err(GameError::Unauthorized);
        }
        if winner_amount > self.pot {
            return Err(GameError::InsufficientFunds);
        }
        let pot_leftover = self.pot - winner_amount;
        let fee_leftover = self.fee_pot;
        self.pot = 0;
        self.fee_pot = 0;
        self.status = GameStatus::Completed;
        self.winner = Some(winner_pubkey);
        self.distributed = true;
        proof {
            assert(self@ =~= winner_settled(old(self)@, winner_pubkey));
        }
        Ok(
            WinnerPayout {
                amount: winner_amount,
                pot_leftover,
                fee_leftover,
            },
        )
    }
}

} // verus!
