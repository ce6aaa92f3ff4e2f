use vstd::bytes::{
    spec_u16_from_le_bytes, spec_u32_from_le_bytes, spec_u64_from_le_bytes, u16_from_le_bytes,
    u32_from_le_bytes, u64_from_le_bytes,
};
use vstd::prelude::*;
use vstd::slice::{slice_subrange, slice_to_vec};

use crate::errors::GameError;
use crate::identity::Identity;

verus! {

/// One decoded request against a pool.  The wire form is one opcode byte
/// followed by a fixed layout of little-endian fields:
///
/// * opcode 0, initialize: a 32-bit id length, the id bytes, a 64-bit
///   minimum stake, a 16-bit capacity and a 64-bit deadline;
/// * opcode 1, join: a 64-bit stake and a 64-bit fee;
/// * opcode 2, end: nothing;
/// * opcode 3, distribute, with a shape byte: shape 0 carries one 32-byte
///   winner identity and a 64-bit amount, shape 1 a 32-bit count followed by
///   that many 40-byte entries of identity and score.
///
/// Every layout is exact: trailing bytes make the request invalid.
#[derive(Debug)]
pub enum QuizInstruction {
    Initialize { game_id: Vec<u8>, min_bet: u64, max_participants: u16, end_time: i64 },
    Join { bet: u64, fee: u64 },
    End,
    DistributeWinner { winner: Identity, amount: u64 },
    DistributeScores { scores: Vec<(Identity, u64)> },
}

/// The mathematical form of a decoded request.
#[verifier::ext_equal]
pub ghost enum InstructionModel {
    Initialize { game_id: Seq<u8>, min_bet: u64, max_participants: u16, end_time: i64 },
    Join { bet: u64, fee: u64 },
    End,
    DistributeWinner { winner: Identity, amount: u64 },
    DistributeScores { scores: Seq<(Identity, u64)> },
}

impl View for QuizInstruction {
    type V = InstructionModel;

    open spec fn view(&self) -> InstructionModel {
        match self {
            QuizInstruction::Initialize { game_id, min_bet, max_participants, end_time } => {
                InstructionModel::Initialize {
                    game_id: game_id@,
                    min_bet: *min_bet,
                    max_participants: *max_participants,
                    end_time: *end_time,
                }
            },
            QuizInstruction::Join { bet, fee } => {
                InstructionModel::Join { bet: *bet, fee: *fee }
            },
            QuizInstruction::End => InstructionModel::End,
            QuizInstruction::DistributeWinner { winner, amount } => {
                InstructionModel::DistributeWinner { winner: *winner, amount: *amount }
            },
            QuizInstruction::DistributeScores { scores } => {
                InstructionModel::DistributeScores { scores: scores@ }
            },
        }
    }
}

/// The 16-bit little-endian value at `off`.
pub open spec fn le_u16_at(s: Seq<u8>, off: int) -> u16 {
    spec_u16_from_le_bytes(s.subrange(off, off + 2))
}

/// The 32-bit little-endian value at `off`.
pub open spec fn le_u32_at(s: Seq<u8>, off: int) -> u32 {
    spec_u32_from_le_bytes(s.subrange(off, off + 4))
}

/// The 64-bit little-endian value at `off`.
pub open spec fn le_u64_at(s: Seq<u8>, off: int) -> u64 {
    spec_u64_from_le_bytes(s.subrange(off, off + 8))
}

/// The 64-bit little-endian value at `off`, reinterpreted as signed.
pub open spec fn le_i64_at(s: Seq<u8>, off: int) -> i64 {
    le_u64_at(s, off) as i64
}

/// The 32-byte identity at `off`: four 64-bit words, least significant
/// first.
pub open spec fn identity_at(s: Seq<u8>, off: int) -> Identity {
    Identity {
        w0: le_u64_at(s, off),
        w1: le_u64_at(s, off + 8),
        w2: le_u64_at(s, off + 16),
        w3: le_u64_at(s, off + 24),
    }
}

/// The 40-byte score entry at `off`: an identity, then a score.
pub open spec fn score_entry_at(s: Seq<u8>, off: int) -> (Identity, u64) {
    (identity_at(s, off), le_u64_at(s, off + 32))
}

/// What the request bytes `s` decode to, if anything: the definition of the
/// wire format.
pub open spec fn spec_parse(s: Seq<u8>) -> Option<InstructionModel> {
    if s.len() < 1 {
        None
    } else if s[0] == 0 {
        if s.len() < 5 {
            None
        } else {
            let id_len = le_u32_at(s, 1) as int;
            if s.len() == 23 + id_len {
                Some(
                    InstructionModel::Initialize {
                        game_id: s.subrange(5, 5 + id_len),
                        min_bet: le_u64_at(s, 5 + id_len),
                        max_participants: le_u16_at(s, 13 + id_len),
                        end_time: le_i64_at(s, 15 + id_len),
                    },
                )
            } else {
                None
            }
        }
    } else if s[0] == 1 {
        if s.len() == 17 {
            Some(InstructionModel::Join { bet: le_u64_at(s, 1), fee: le_u64_at(s, 9) })
        } else {
            None
        }
    } else if s[0] == 2 {
        if s.len() == 1 {
            Some(InstructionModel::End)
        } else {
            None
        }
    } else if s[0] == 3 {
        if s.len() < 2 {
            None
        } else if s[1] == 0 {
            if s.len() == 42 {
                Some(
                    InstructionModel::DistributeWinner {
                        winner: identity_at(s, 2),
                        amount: le_u64_at(s, 34),
                    },
                )
            } else {
                None
            }
        } else if s[1] == 1 {
            if s.len() < 6 {
                None
            } else {
                let count = le_u32_at(s, 2) as int;
                if s.len() == 6 + 40 * count {
                    Some(
                        InstructionModel::DistributeScores {
                            scores: Seq::new(count as nat, |i: int| score_entry_at(s, 6 + 40 * i)),
                        },
                    )
                } else {
                    None
                }
            }
        } else {
            None
        }
    } else {
        None
    }
}

/// Reads the 64-bit little-endian value at `off`.
fn read_u64(data: &[u8], off: usize) -> (x: u64)
    requires
        data@.len() <= usize::MAX,
        off + 8 <= data@.len(),
    ensures
        x == le_u64_at(data@, off as int),
{
    u64_from_le_bytes(slice_subrange(data, off, off + 8))
}

/// Reads the 32-bit little-endian value at `off`.
fn read_u32(data: &[u8], off: usize) -> (x: u32)
    requires
        data@.len() <= usize::MAX,
        off + 4 <= data@.len(),
    ensures
        x == le_u32_at(data@, off as int),
{
    u32_from_le_bytes(slice_subrange(data, off, off + 4))
}

/// Reads the 16-bit little-endian value at `off`.
fn read_u16(data: &[u8], off: usize) -> (x: u16)
    requires
        data@.len() <= usize::MAX,
        off + 2 <= data@.len(),
    ensures
        x == le_u16_at(data@, off as int),
{
    u16_from_le_bytes(slice_subrange(data, off, off + 2))
}

/// Reads the 32-byte identity at `off`.
fn read_identity(data: &[u8], off: usize) -> (id: Identity)
    requires
        data@.len() <= usize::MAX,
        off + 32 <= data@.len(),
    ensures
        id == identity_at(data@, off as int),
{
    Identity {
        w0: read_u64(data, off),
        w1: read_u64(data, off + 8),
        w2: read_u64(data, off + 16),
        w3: read_u64(data, off + 24),
    }
}

/// Decodes one request.  Returns exactly the instruction that
/// [`spec_parse`] assigns to the bytes, and `InvalidInstructionData`
/// exactly when it assigns none.
#[verifier::loop_isolation(false)]
pub fn parse_instruction(data: &[u8]) -> (r: Result<QuizInstruction, GameError>)
    ensures
        r matches Ok(q) ==> spec_parse(data@) == Some(q@),
        r is Err <==> spec_parse(data@) is None,
        r matches Err(e) ==> e == GameError::InvalidInstructionData,
{
    let n = data.len();
    if n < 1 {
        return Err(GameError::InvalidInstructionData);
    }
    let opcode = *vstd::slice::slice_index_get(data, 0);
    if opcode == 0 {
        if n < 5 {
            return Err(GameError::InvalidInstructionData);
        }
        let id_len = read_u32(data, 1) as usize;
        if n < 23 || n - 23 != id_len {
            return Err(GameError::InvalidInstructionData);
        }
        let game_id = slice_to_vec(slice_subrange(data, 5, 5 + id_len));
        let min_bet = read_u64(data, 5 + id_len);
        let max_participants = read_u16(data, 13 + id_len);
        let end_time = read_u64(data, 15 + id_len) as i64;
        let q = QuizInstruction::Initialize { game_id, min_bet, max_participants, end_time };
        proof {
            assert(spec_parse(data@) matches Some(m) && m =~= q@);
        }
        Ok(q)
    } else if opcode == 1 {
        if n != 17 {
            return Err(GameError::InvalidInstructionData);
        }
        Ok(QuizInstruction::Join { bet: read_u64(data, 1), fee: read_u64(data, 9) })
    } else if opcode == 2 {
        if n != 1 {
            return Err(GameError::InvalidInstructionData);
        }
        Ok(QuizInstruction::End)
    } else if opcode == 3 {
        if n < 2 {
            return Err(GameError::InvalidInstructionData);
        }
        let shape = *vstd::slice::slice_index_get(data, 1);
        if shape == 0 {
            if n != 42 {
                return Err(GameError::InvalidInstructionData);
            }
            Ok(
                QuizInstruction::DistributeWinner {
                    winner: read_identity(data, 2),
                    amount: read_u64(data, 34),
                },
            )
        } else if shape == 1 {
            if n < 6 {
                return Err(GameError::InvalidInstructionData);
            }
            let count = read_u32(data, 2) as usize;
            let rem = n - 6;
            if rem % 40 != 0 || rem / 40 != count {
                proof {
                    assert(data@.len() != 6 + 40 * (le_u32_at(data@, 2) as int)) by {
                        if data@.len() == 6 + 40 * (le_u32_at(data@, 2) as int) {
                            let c = le_u32_at(data@, 2) as int;
                            assert((40 * c) % 40 == 0 && (40 * c) / 40 == c) by (nonlinear_arith);
                        }
                    }
                }
                return Err(GameError::InvalidInstructionData);
            }
            proof {
                assert(40 * (count as int) == rem && (6 + 40 * (count as int)) == n as int)
                    by (nonlinear_arith)
                    requires
                        rem % 40 == 0,
                        rem / 40 == count as int,
                        rem == n - 6,
                        n >= 6,
                ;
            }
            let mut entries: Vec<(Identity, u64)> = Vec::new();
            let mut i: usize = 0;
            while i < count
                invariant
                    0 <= i <= count,
                    entries@.len() == i,
                    forall|j: int| #![trigger entries@[j]]
                        0 <= j < i ==> entries@[j] == score_entry_at(data@, 6 + 40 * j),
                decreases count - i,
            {
                proof {
                    assert(40 * (i as int) + 40 <= 40 * (count as int)) by (nonlinear_arith)
                        requires
                            i < count,
                    ;
                }
                let off = 6 + 40 * i;
                let entry = (read_identity(data, off), read_u64(data, off + 32));
                proof {
                    assert(entry == score_entry_at(data@, 6 + 40 * (i as int)));
                }
                entries.push(entry);
                i = i + 1;
            }
            let q = QuizInstruction::DistributeScores { scores: entries };
            proof {
                let c = count as int;
                assert(entries@ =~= Seq::new(c as nat, |j: int| score_entry_at(data@, 6 + 40 * j)));
                assert(spec_parse(data@) matches Some(m) && m =~= q@);
            }
            Ok(q)
        } else {
            Err(GameError::InvalidInstructionData)
        }
    } else {
        Err(GameError::InvalidInstructionData)
    }
}

} // verus!
