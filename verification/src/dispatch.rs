use vstd::prelude::*;

use crate::codec::{parse_instruction, spec_parse, InstructionModel, QuizInstruction};
use crate::distribute::{
    distribute_err, distribute_ok, payout_at, score_values, scores_settled, sum_u64, winner_err,
    winner_ok, winner_settled, Distribution, WinnerPayout,
};
use crate::errors::GameError;
use crate::game::{
    end_err, end_ok, ended, init_err, init_ok, initialized, join_err, join_ok, joined, Game,
};
use crate::identity::Identity;

verus! {

/// What one successfully processed request asks the runtime to do, beyond
/// persisting the new pool state.
#[derive(Debug)]
pub enum Outcome {
    /// A fresh pool was created; nothing moves.
    Initialized,
    /// The caller joined: move `amount` from the caller into the pool's
    /// custody, then commit.
    Joined { amount: u64 },
    /// The pool was ended; nothing moves.
    Ended,
    /// An authority-assigned payout: move `payout.amount` to the winner.
    WinnerPaid { payout: WinnerPayout },
    /// A score-weighted distribution: pay each recorded participant their
    /// pot payout plus the fee share.
    ScoresPaid { distribution: Distribution },
}

/// Decodes one request and applies it to the pool, the one entry point a
/// dispatching runtime needs.  The pool is replaced on `initialize`, mutated
/// by `join`, `end` and the two distribution shapes, and untouched on any
/// failure; the outcome tells the runtime what value to move before it
/// commits the new state.  `caller` must be the identity whose signature the
/// runtime verified, `account_keys` the participant accounts it supplied
/// for a score-weighted distribution, in order.
pub fn process_instruction(
    game: &mut Game,
    caller: Identity,
    now: i64,
    data: &[u8],
    account_keys: &Vec<Identity>,
) -> (r: Result<Outcome, GameError>)
    requires
        old(game)@.wf(),
    ensures
        final(game)@.wf(),
        spec_parse(data@) is None ==> r == Err::<Outcome, GameError>(
            GameError::InvalidInstructionData,
        ) && final(game)@ == old(game)@,
        spec_parse(data@) matches Some(m) ==> match m {
            InstructionModel::Initialize { game_id, min_bet, max_participants, end_time } => {
                &&& (r is Ok <==> init_ok(min_bet, max_participants, end_time, now))
                &&& r is Ok ==> final(game)@ == initialized(
                    game_id,
                    caller,
                    min_bet,
                    max_participants,
                    end_time,
                ) && r->Ok_0 is Initialized
                &&& r is Err ==> final(game)@ == old(game)@ && r->Err_0 == init_err(
                    min_bet,
                    max_participants,
                    end_time,
                    now,
                )
            },
            InstructionModel::Join { bet, fee } => {
                &&& (r is Ok <==> join_ok(old(game)@, caller, bet, fee, now))
                &&& r is Ok ==> final(game)@ == joined(old(game)@, caller, bet, fee) && r->Ok_0
                    == (Outcome::Joined { amount: (bet + fee) as u64 })
                &&& r is Err ==> final(game)@ == old(game)@ && r->Err_0 == join_err(
                    old(game)@,
                    caller,
                    bet,
                    fee,
                    now,
                )
            },
            InstructionModel::End => {
                &&& (r is Ok <==> end_ok(old(game)@, caller, now))
                &&& r is Ok ==> final(game)@ == ended(old(game)@) && r->Ok_0 is Ended
                &&& r is Err ==> final(game)@ == old(game)@ && r->Err_0 == end_err(
                    old(game)@,
                    caller,
                    now,
                )
            },
            InstructionModel::DistributeWinner { winner, amount } => {
                &&& (r is Ok <==> winner_ok(old(game)@, caller, amount))
                &&& r matches Ok(o) ==> o matches Outcome::WinnerPaid { payout } && final(game)@
                    == winner_settled(old(game)@, winner) && payout.amount == amount
                    && payout.amount + payout.pot_leftover == old(game)@.pot
                    && payout.fee_leftover == old(game)@.fee_pot
                &&& r is Err ==> final(game)@ == old(game)@ && r->Err_0 == winner_err(
                    old(game)@,
                    caller,
                    amount,
                )
            },
            InstructionModel::DistributeScores { scores } => {
                &&& (r is Ok <==> distribute_ok(old(game)@, caller, scores, account_keys@))
                &&& r matches Ok(o) ==> o matches Outcome::ScoresPaid { distribution: d } && ({
                    let svals = score_values(scores);
                    let n = old(game)@.participants.len() as int;
                    &&& final(game)@ == scores_settled(old(game)@, svals)
                    &&& d.payouts@.len() == n
                    &&& forall|i: int| 0 <= i < n ==> d.payouts@[i] == payout_at(
                        old(game)@.pot,
                        svals,
                        i,
                    )
                    &&& d.fee_share == old(game)@.fee_pot as int / n
                    &&& sum_u64(d.payouts@) + d.pot_leftover == old(game)@.pot
                    &&& n * d.fee_share + d.fee_leftover == old(game)@.fee_pot
                    &&& d.pot_leftover < n
                    &&& d.fee_leftover < n
                })
                &&& r is Err ==> final(game)@ == old(game)@ && r->Err_0 == distribute_err(
                    old(game)@,
                    caller,
                    scores,
                    account_keys@,
                )
            },
        },
{
    let instr = match parse_instruction(data) {
        Ok(q) => q,
        Err(e) => {
            return Err(e);
        },
    };
    match instr {
        QuizInstruction::Initialize { game_id, min_bet, max_participants, end_time } => {
            match Game::initialize_game(game_id, caller, min_bet, max_participants, end_time, now) {
                Ok(g) => {
                    *game = g;
                    Ok(Outcome::Initialized)
                },
                Err(e) => Err(e),
            }
        },
        QuizInstruction::Join { bet, fee } => {
            match game.join_game(caller, bet, fee, now) {
                Ok(amount) => Ok(Outcome::Joined { amount }),
                Err(e) => Err(e),
            }
        },
        QuizInstruction::End => {
            match game.end_game(caller, now) {
                Ok(()) => Ok(Outcome::Ended),
                Err(e) => Err(e),
            }
        },
        QuizInstruction::DistributeWinner { winner, amount } => {
            match game.distribute_winnings(caller, winner, amount) {
                Ok(payout) => Ok(Outcome::WinnerPaid { payout }),
                Err(e) => Err(e),
            }
        },
        QuizInstruction::DistributeScores { scores } => {
            match game.distribute_scores(caller, &scores, account_keys) {
                Ok(distribution) => Ok(Outcome::ScoresPaid { distribution }),
                Err(e) => Err(e),
            }
        },
    }
}

} // verus!
