use vstd::prelude::*;

use crate::errors::GameError;
use crate::identity::Identity;

verus! {

/// The lifecycle phase of a pool.  Transitions are one-directional:
/// `Active -> Ended -> Completed`, with `Cancelled` reserved as an alternate
/// terminal phase reached only outside the ordinary flow.
#[derive(Clone, Copy, PartialEq, Eq, Structural, Debug)]
pub enum GameStatus {
    Active,
    Ended,
    Completed,
    Cancelled,
}

/// The mathematical model of one pool.  Every contract in the crate speaks
/// of this record; the executable [`Game`] views to it.
#[verifier::ext_equal]
pub ghost struct GameModel {
    pub game_id: Seq<u8>,
    pub authority: Identity,
    pub min_bet: u64,
    pub max_participants: u16,
    pub end_time: i64,
    pub pot: u64,
    pub fee_pot: u64,
    pub participants: Seq<Identity>,
    pub scores: Seq<u64>,
    pub status: GameStatus,
    pub winner: Option<Identity>,
    pub distributed: bool,
}

impl GameModel {
    /// Well-formedness: one score per participant, no identity twice, and
    /// never more participants than the pool's capacity.
    pub open spec fn wf(self) -> bool {
        &&& self.scores.len() == self.participants.len()
        &&& self.participants.len() <= self.max_participants
        &&& forall|i: int, j: int|
            0 <= i < j < self.participants.len() ==> self.participants[i] != self.participants[j]
    }
}

/// The caller is the pool's authority.
pub open spec fn is_authority(caller: Identity, g: GameModel) -> bool {
    caller == g.authority
}

/// The pool is still accepting contributions.
pub open spec fn is_active(g: GameModel) -> bool {
    g.status is Active
}

/// The pool has been ended and awaits distribution.
pub open spec fn is_ended(g: GameModel) -> bool {
    g.status is Ended
}

/// The pool can admit one more participant.
pub open spec fn has_capacity(g: GameModel) -> bool {
    g.participants.len() < g.max_participants
}

/// The time `now` lies strictly before the pool's deadline.
pub open spec fn within_deadline(g: GameModel, now: i64) -> bool {
    now < g.end_time
}

/// No distribution has taken place yet.
pub open spec fn not_yet_distributed(g: GameModel) -> bool {
    !g.distributed
}

/// When pool creation succeeds: the deadline is strictly in the future and
/// neither the minimum stake nor the capacity is zero.
pub open spec fn init_ok(min_bet: u64, max_participants: u16, end_time: i64, now: i64) -> bool {
    &&& now < end_time
    &&& min_bet > 0
    &&& max_participants > 0
}

/// The error a failed creation returns, checked in this order: deadline,
/// minimum stake, capacity.
pub open spec fn init_err(min_bet: u64, max_participants: u16, end_time: i64, now: i64) -> GameError {
    if !(now < end_time) {
        GameError::InvalidEndTime
    } else if min_bet == 0 {
        GameError::InvalidBet
    } else {
        GameError::InvalidMaxParticipants
    }
}

/// The pool a successful creation produces: active, empty, with zeroed pots.
pub open spec fn initialized(
    game_id: Seq<u8>,
    authority: Identity,
    min_bet: u64,
    max_participants: u16,
    end_time: i64,
) -> GameModel {
    GameModel {
        game_id,
        authority,
        min_bet,
        max_participants,
        end_time,
        pot: 0,
        fee_pot: 0,
        participants: Seq::empty(),
        scores: Seq::empty(),
        status: GameStatus::Active,
        winner: None,
        distributed: false,
    }
}

/// When a join succeeds: the pool is active, the deadline has not passed,
/// the stake reaches the minimum, there is room, the identity is new, and
/// none of the three accumulations overflows.
pub open spec fn join_ok(g: GameModel, p: Identity, bet: u64, fee: u64, now: i64) -> bool {
    &&& is_active(g)
    &&& within_deadline(g, now)
    &&& bet >= g.min_bet
    &&& has_capacity(g)
    &&& !g.participants.contains(p)
    &&& g.pot + bet <= u64::MAX
    &&& g.fee_pot + fee <= u64::MAX
    &&& bet + fee <= u64::MAX
}

/// The error a failed join returns, checked in this order: phase, deadline,
/// stake, capacity, duplicate identity, overflow.
pub open spec fn join_err(g: GameModel, p: Identity, bet: u64, fee: u64, now: i64) -> GameError {
    if !is_active(g) {
        GameError::GameNotActive
    } else if !within_deadline(g, now) {
        GameError::GameEnded
    } else if bet < g.min_bet {
        GameError::BetTooLow
    } else if !has_capacity(g) {
        GameError::GameFull
    } else if g.participants.contains(p) {
        GameError::AlreadyJoined
    } else {
        GameError::ArithmeticOverflow
    }
}

/// The pool after a successful join: the participant is appended with score
/// zero and the stake and fee are added to their pots.
pub open spec fn joined(g: GameModel, p: Identity, bet: u64, fee: u64) -> GameModel {
    GameModel {
        pot: (g.pot + bet) as u64,
        fee_pot: (g.fee_pot + fee) as u64,
        participants: g.participants.push(p),
        scores: g.scores.push(0u64),
        ..g
    }
}

/// When ending succeeds: the pool is active, and either the deadline has
/// passed or the caller is the authority.
pub open spec fn end_ok(g: GameModel, caller: Identity, now: i64) -> bool {
    &&& is_active(g)
    &&& (now >= g.end_time || is_authority(caller, g))
}

/// The error a failed end returns: wrong phase, else wrong caller.
pub open spec fn end_err(g: GameModel, caller: Identity, now: i64) -> GameError {
    if !is_active(g) {
        GameError::GameNotActive
    } else {
        GameError::Unauthorized
    }
}

/// The pool after a successful end: only the phase moves, no funds do.
pub open spec fn ended(g: GameModel) -> GameModel {
    GameModel { status: GameStatus::Ended, ..g }
}

/// The persisted record for one escrow instance.  `participants` and
/// `scores` run in parallel, in join order; `pot` and `fee_pot` accumulate
/// contributions until the one distribution, which zeroes them.
#[derive(Debug)]
pub struct Game {
    pub game_id: Vec<u8>,
    pub authority: Identity,
    pub min_bet: u64,
    pub max_participants: u16,
    pub end_time: i64,
    pub pot: u64,
    pub fee_pot: u64,
    pub participants: Vec<Identity>,
    pub scores: Vec<u64>,
    pub status: GameStatus,
    pub winner: Option<Identity>,
    pub distributed: bool,
}

impl View for Game {
    type V = GameModel;

    open spec fn view(&self) -> GameModel {
        GameModel {
            game_id: self.game_id@,
            authority: self.authority,
            min_bet: self.min_bet,
            max_participants: self.max_participants,
            end_time: self.end_time,
            pot: self.pot,
            fee_pot: self.fee_pot,
            participants: self.participants@,
            scores: self.scores@,
            status: self.status,
            winner: self.winner,
            distributed: self.distributed,
        }
    }
}

impl Game {
    /// Creates a pool.  Fails with `InvalidEndTime` unless the deadline is
    /// strictly in the future, `InvalidBet` on a zero minimum stake, and
    /// `InvalidMaxParticipants` on a zero capacity; succeeds exactly
    /// otherwise, producing an active pool with zeroed pots and no
    /// participants.
    pub fn initialize_game(
        game_id: Vec<u8>,
        authority: Identity,
        min_bet: u64,
        max_participants: u16,
        end_time: i64,
        now: i64,
    ) -> (r: Result<Game, GameError>)
        ensures
            r is Ok <==> init_ok(min_bet, max_participants, end_time, now),
            r matches Ok(g) ==> g@ == initialized(
                game_id@,
                authority,
                min_bet,
                max_participants,
                end_time,
            ) && g@.wf(),
            r matches Err(e) ==> e == init_err(min_bet, max_participants, end_time, now),
    {
        if !(end_time > now) {
            return Err(GameError::InvalidEndTime);
        }
        if min_bet == 0 {
            return Err(GameError::InvalidBet);
        }
        if max_participants == 0 {
            return Err(GameError::InvalidMaxParticipants);
        }
        let g = Game {
            game_id,
            authority,
            min_bet,
            max_participants,
            end_time,
            pot: 0,
            fee_pot: 0,
            participants: Vec::new(),
            scores: Vec::new(),
            status: GameStatus::Active,
            winner: None,
            distributed: false,
        };
        Ok(g)
    }

    /// Whether `p` has already joined this pool.
    pub fn has_joined(&self, p: Identity) -> (r: bool)
        ensures
            r == self@.participants.contains(p),
    {
        let mut i: usize = 0;
        while i < self.participants.len()
            invariant
                i <= self.participants@.len(),
                forall|j: int| 0 <= j < i ==> self.participants@[j] != p,
            decreases self.participants@.len() - i,
        {
            if self.participants[i] == p {
                proof {
                    assert(self.participants@[i as int] == p);
                }
                return true;
            }
            i = i + 1;
        }
        false
    }

    /// Admits one participant.  Exactly when the pool is active, the
    /// deadline has not passed, the stake reaches the minimum, there is
    /// room, the identity is new and nothing overflows, the participant is
    /// appended with score zero, the pots grow by the stake and the fee, and
    /// the returned amount `bet + fee` is what the runtime must move from
    /// the participant into the pool's custody before committing the new
    /// state.  On any failure the pool is unchanged and the error tells the
    /// first guard that failed.
    pub fn join_game(&mut self, participant: Identity, bet: u64, fee: u64, now: i64) -> (r:
        Result<u64, GameError>)
        requires
            old(self)@.wf(),
        ensures
            final(self)@.wf(),
            r is Ok <==> join_ok(old(self)@, participant, bet, fee, now),
            r matches Ok(amount) ==> final(self)@ == joined(old(self)@, participant, bet, fee)
                && amount == bet + fee,
            r is Err ==> final(self)@ == old(self)@,
            r matches Err(e) ==> e == join_err(old(self)@, participant, bet, fee, now),
    {
        if !(self.status == GameStatus::Active) {
            return Err(GameError::GameNotActive);
        }
        if !(now < self.end_time) {
            return Err(GameError::GameEnded);
        }
        if bet < self.min_bet {
            return Err(GameError::BetTooLow);
        }
        if !(self.participants.len() < self.max_participants as usize) {
            return Err(GameError::GameFull);
        }
        if self.has_joined(participant) {
            return Err(GameError::AlreadyJoined);
        }
        let new_pot = match self.pot.checked_add(bet) {
            Some(v) => v,
            None => {
                return Err(GameError::ArithmeticOverflow);
            },
        };
        let new_fee_pot = match self.fee_pot.checked_add(fee) {
            Some(v) => v,
            None => {
                return Err(GameError::ArithmeticOverflow);
            },
        };
        let amount = match bet.checked_add(fee) {
            Some(v) => v,
            None => {
                return Err(GameError::ArithmeticOverflow);
            },
        };
        self.pot = new_pot;
        self.fee_pot = new_fee_pot;
        self.participants.push(participant);
        self.scores.push(0u64);
        proof {
            assert(self@ =~= joined(old(self)@, participant, bet, fee));
            let s = old(self)@.participants;
            assert forall|i: int, j: int|
                0 <= i < j < self@.participants.len() implies self@.participants[i]
                != self@.participants[j] by {
                if j == s.len() {
                    assert(self@.participants[i] == s[i]);
                    if s[i] == participant {
                        assert(s.contains(participant));
                    }
                }
            }
        }
        Ok(amount)
    }

    /// Ends the pool.  Succeeds exactly when the pool is active and either
    /// the deadline has passed or the caller is the authority: the phase
    /// becomes `Ended` and no funds move.  Otherwise the pool is unchanged
    /// and the call fails with `GameNotActive` or `Unauthorized`.
    pub fn end_game(&mut self, caller: Identity, now: i64) -> (r: Result<(), GameError>)
        requires
            old(self)@.wf(),
        ensures
            final(self)@.wf(),
            r is Ok <==> end_ok(old(self)@, caller, now),
            r is Ok ==> final(self)@ == ended(old(self)@),
            r is Err ==> final(self)@ == old(self)@,
            r matches Err(e) ==> e == end_err(old(self)@, caller, now),
    {
        if !(self.status == GameStatus::Active) {
            return Err(GameError::GameNotActive);
        }
        if !(now >= self.end_time || caller == self.authority) {
            return Err(GameError::Unauthorized);
        }
        self.status = GameStatus::Ended;
        proof {
            assert(self@ =~= ended(old(self)@));
        }
        Ok(())
    }
}

} // verus!
