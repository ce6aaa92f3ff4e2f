use vstd::prelude::*;

use crate::distribute::{
    distribute_err, distribute_ok, lemma_payout_sum_le_pot, lemma_pot_leftover_small, payout_sum,
    score_values, scores_settled, sum_u64, winner_err, winner_ok, winner_settled,
};
use crate::errors::GameError;
use crate::game::{
    ended, init_ok, initialized, is_active, is_ended, join_ok, joined, GameModel, GameStatus,
};
use crate::identity::Identity;

verus! {

/// One join request, as a value: who, how much stake, how much fee, and
/// when it arrived.
pub ghost struct JoinRequest {
    pub participant: Identity,
    pub bet: u64,
    pub fee: u64,
    pub now: i64,
}

/// The pool after admitting the given joins in order, or nothing if any of
/// them would have been rejected.
pub open spec fn apply_joins(g: GameModel, reqs: Seq<JoinRequest>) -> Option<GameModel>
    decreases reqs.len(),
{
    if reqs.len() == 0 {
        Some(g)
    } else {
        let q = reqs[0];
        if join_ok(g, q.participant, q.bet, q.fee, q.now) {
            apply_joins(joined(g, q.participant, q.bet, q.fee), reqs.drop_first())
        } else {
            None
        }
    }
}

/// The stake the given joins contribute, taken together.
pub open spec fn total_bets(reqs: Seq<JoinRequest>) -> int
    decreases reqs.len(),
{
    if reqs.len() == 0 {
        0
    } else {
        reqs[0].bet + total_bets(reqs.drop_first())
    }
}

/// The fees the given joins contribute, taken together.
pub open spec fn total_fees(reqs: Seq<JoinRequest>) -> int
    decreases reqs.len(),
{
    if reqs.len() == 0 {
        0
    } else {
        reqs[0].fee + total_fees(reqs.drop_first())
    }
}

/// Joins accumulate exactly: a pool that admitted `reqs` holds its old pots
/// plus every stake and every fee, one more participant per join, and
/// nothing else about it has changed.
pub proof fn lemma_joins_accumulate(g: GameModel, reqs: Seq<JoinRequest>, h: GameModel)
    requires
        apply_joins(g, reqs) == Some(h),
    ensures
        h.pot == g.pot + total_bets(reqs),
        h.fee_pot == g.fee_pot + total_fees(reqs),
        h.participants.len() == g.participants.len() + reqs.len(),
        h.status == g.status,
        h.authority == g.authority,
        h.distributed == g.distributed,
    decreases reqs.len(),
{
    if reqs.len() > 0 {
        let q = reqs[0];
        lemma_joins_accumulate(joined(g, q.participant, q.bet, q.fee), reqs.drop_first(), h);
    }
}

/// Conservation: start a fresh pool, admit any sequence of successful
/// joins, end the round, and let one score-weighted distribution go
/// through.  Then the pot payouts, the fee shares and the two leftovers
/// add up exactly to the stakes and fees that were contributed: no value
/// appears or disappears, and the leftovers are non-negative, with the fee
/// leftover smaller than the participant count.
pub proof fn lemma_conservation(
    game_id: Seq<u8>,
    authority: Identity,
    min_bet: u64,
    max_participants: u16,
    end_time: i64,
    now: i64,
    reqs: Seq<JoinRequest>,
    g1: GameModel,
    caller: Identity,
    pairs: Seq<(Identity, u64)>,
    keys: Seq<Identity>,
)
    requires
        init_ok(min_bet, max_participants, end_time, now),
        apply_joins(initialized(game_id, authority, min_bet, max_participants, end_time), reqs)
            == Some(g1),
        distribute_ok(ended(g1), caller, pairs, keys),
    ensures
        ({
            let g2 = ended(g1);
            let svals = score_values(pairs);
            let n = g2.participants.len() as int;
            let paid = payout_sum(g2.pot, svals, n);
            let fee_share = g2.fee_pot as int / n;
            let pot_leftover = g2.pot - paid;
            let fee_leftover = g2.fee_pot - n * fee_share;
            &&& paid + n * fee_share + pot_leftover + fee_leftover == total_bets(reqs)
                + total_fees(reqs)
            &&& 0 <= pot_leftover < n
            &&& 0 <= fee_leftover < n
        }),
{
    let g0 = initialized(game_id, authority, min_bet, max_participants, end_time);
    let g2 = ended(g1);
    let svals = score_values(pairs);
    let n = g2.participants.len() as int;
    lemma_joins_accumulate(g0, reqs, g1);
    assert(g2.pot == total_bets(reqs));
    assert(g2.fee_pot == total_fees(reqs));
    lemma_payout_sum_le_pot(g2.pot, svals, n);
    lemma_pot_leftover_small(g2.pot, svals);
    vstd::arithmetic::div_mod::lemma_fundamental_div_mod(g2.fee_pot as int, n);
    vstd::arithmetic::div_mod::lemma_div_pos_is_pos(g2.fee_pot as int, n);
}

/// Where a phase stands on the one-directional path
/// `Active -> Ended -> Completed`; `Cancelled` is terminal alongside
/// `Completed`.
pub open spec fn status_rank(s: GameStatus) -> int {
    match s {
        GameStatus::Active => 0,
        GameStatus::Ended => 1,
        GameStatus::Completed => 2,
        GameStatus::Cancelled => 2,
    }
}

/// The lifecycle only moves forward: no successful operation ever takes a
/// pool's phase back toward `Active`, and once a pool leaves `Active` no
/// join is accepted.
pub proof fn lemma_status_monotonic(
    g: GameModel,
    p: Identity,
    bet: u64,
    fee: u64,
    now: i64,
    svals: Seq<u64>,
    winner: Identity,
)
    ensures
        joined(g, p, bet, fee).status == g.status,
        is_active(g) ==> status_rank(ended(g).status) > status_rank(g.status),
        is_ended(g) ==> status_rank(scores_settled(g, svals).status) > status_rank(g.status),
        is_ended(g) ==> status_rank(winner_settled(g, winner).status) > status_rank(g.status),
        !is_active(g) ==> !join_ok(g, p, bet, fee, now),
{
}

/// Distribution happens at most once: after one score-weighted distribution
/// has succeeded, every further distribution attempt of either shape, by
/// anyone, with any data, is rejected as `AlreadyDistributed`.  (Each
/// distribution operation's own contract adds that a rejected call leaves
/// the pool, and so its funds, unchanged.)
pub proof fn lemma_distribute_at_most_once(
    g: GameModel,
    caller: Identity,
    pairs: Seq<(Identity, u64)>,
    keys: Seq<Identity>,
    caller2: Identity,
    pairs2: Seq<(Identity, u64)>,
    keys2: Seq<Identity>,
    winner_caller: Identity,
    amount: u64,
)
    requires
        distribute_ok(g, caller, pairs, keys),
    ensures
        ({
            let h = scores_settled(g, score_values(pairs));
            &&& !distribute_ok(h, caller2, pairs2, keys2)
            &&& distribute_err(h, caller2, pairs2, keys2) == GameError::AlreadyDistributed
            &&& !winner_ok(h, winner_caller, amount)
            &&& winner_err(h, winner_caller, amount) == GameError::AlreadyDistributed
        }),
{
}

/// The same, after an authority-assigned payout: once a winner has been
/// paid, every further distribution attempt of either shape is rejected as
/// `AlreadyDistributed`.
pub proof fn lemma_winner_at_most_once(
    g: GameModel,
    caller: Identity,
    winner: Identity,
    amount: u64,
    caller2: Identity,
    pairs2: Seq<(Identity, u64)>,
    keys2: Seq<Identity>,
    winner_caller: Identity,
    amount2: u64,
)
    requires
        winner_ok(g, caller, amount),
    ensures
        ({
            let h = winner_settled(g, winner);
            &&& !distribute_ok(h, caller2, pairs2, keys2)
            &&& distribute_err(h, caller2, pairs2, keys2) == GameError::AlreadyDistributed
            &&& !winner_ok(h, winner_caller, amount2)
            &&& winner_err(h, winner_caller, amount2) == GameError::AlreadyDistributed
        }),
{
}

} // verus!
