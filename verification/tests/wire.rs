use prompt_detective::codec::{parse_instruction, QuizInstruction};
use prompt_detective::dispatch::{process_instruction, Outcome};
use prompt_detective::errors::GameError;
use prompt_detective::game::{Game, GameStatus};
use prompt_detective::identity::Identity;

fn ident(k: u64) -> Identity {
    Identity::new(k, 0, 0, 0)
}

fn ident_bytes(id: Identity) -> Vec<u8> {
    let mut v = Vec::new();
    v.extend_from_slice(&id.w0.to_le_bytes());
    v.extend_from_slice(&id.w1.to_le_bytes());
    v.extend_from_slice(&id.w2.to_le_bytes());
    v.extend_from_slice(&id.w3.to_le_bytes());
    v
}

fn initialize_bytes(game_id: &[u8], min_bet: u64, max_participants: u16, end_time: i64) -> Vec<u8> {
    let mut v = vec![0u8];
    v.extend_from_slice(&(game_id.len() as u32).to_le_bytes());
    v.extend_from_slice(game_id);
    v.extend_from_slice(&min_bet.to_le_bytes());
    v.extend_from_slice(&max_participants.to_le_bytes());
    v.extend_from_slice(&end_time.to_le_bytes());
    v
}

fn join_bytes(bet: u64, fee: u64) -> Vec<u8> {
    let mut v = vec![1u8];
    v.extend_from_slice(&bet.to_le_bytes());
    v.extend_from_slice(&fee.to_le_bytes());
    v
}

fn winner_bytes(winner: Identity, amount: u64) -> Vec<u8> {
    let mut v = vec![3u8, 0u8];
    v.extend_from_slice(&ident_bytes(winner));
    v.extend_from_slice(&amount.to_le_bytes());
    v
}

fn scores_bytes(scores: &[(Identity, u64)]) -> Vec<u8> {
    let mut v = vec![3u8, 1u8];
    v.extend_from_slice(&(scores.len() as u32).to_le_bytes());
    for &(id, s) in scores {
        v.extend_from_slice(&ident_bytes(id));
        v.extend_from_slice(&s.to_le_bytes());
    }
    v
}

#[test]
fn parse_initialize_reads_every_field() {
    let data = initialize_bytes(b"round-7", 25, 8, -3);
    match parse_instruction(&data).unwrap() {
        QuizInstruction::Initialize { game_id, min_bet, max_participants, end_time } => {
            assert_eq!(game_id, b"round-7".to_vec());
            assert_eq!(min_bet, 25);
            assert_eq!(max_participants, 8);
            assert_eq!(end_time, -3);
        }
        _ => panic!("wrong instruction"),
    }
}

#[test]
fn parse_initialize_accepts_empty_id() {
    let data = initialize_bytes(b"", 1, 1, 7);
    match parse_instruction(&data).unwrap() {
        QuizInstruction::Initialize { game_id, min_bet, max_participants, end_time } => {
            assert_eq!(game_id, Vec::<u8>::new());
            assert_eq!(min_bet, 1);
            assert_eq!(max_participants, 1);
            assert_eq!(end_time, 7);
        }
        _ => panic!("wrong instruction"),
    }
}

#[test]
fn parse_join_reads_bet_and_fee() {
    let data = join_bytes(123_456_789, 42);
    match parse_instruction(&data).unwrap() {
        QuizInstruction::Join { bet, fee } => {
            assert_eq!(bet, 123_456_789);
            assert_eq!(fee, 42);
        }
        _ => panic!("wrong instruction"),
    }
}

#[test]
fn parse_end_is_bare_opcode() {
    match parse_instruction(&[2u8]).unwrap() {
        QuizInstruction::End => {}
        _ => panic!("wrong instruction"),
    }
}

#[test]
fn parse_winner_shape() {
    let w = Identity::new(5, 6, 7, u64::MAX);
    let data = winner_bytes(w, 900);
    match parse_instruction(&data).unwrap() {
        QuizInstruction::DistributeWinner { winner, amount } => {
            assert_eq!(winner, w);
            assert_eq!(amount, 900);
        }
        _ => panic!("wrong instruction"),
    }
}

#[test]
fn parse_scores_shape() {
    let entries = vec![(ident(10), 3u64), (Identity::new(1, 2, 3, 4), u64::MAX)];
    let data = scores_bytes(&entries);
    match parse_instruction(&data).unwrap() {
        QuizInstruction::DistributeScores { scores } => {
            assert_eq!(scores, entries);
        }
        _ => panic!("wrong instruction"),
    }
}

#[test]
fn parse_rejects_bad_requests() {
    // Empty request.
    assert_eq!(parse_instruction(&[]).unwrap_err(), GameError::InvalidInstructionData);
    // Unknown opcode.
    assert_eq!(parse_instruction(&[9u8]).unwrap_err(), GameError::InvalidInstructionData);
    // Trailing byte after an exact layout.
    let mut long_join = join_bytes(1, 2);
    long_join.push(0);
    assert_eq!(parse_instruction(&long_join).unwrap_err(), GameError::InvalidInstructionData);
    // Truncated join.
    assert_eq!(
        parse_instruction(&join_bytes(1, 2)[..10]).unwrap_err(),
        GameError::InvalidInstructionData
    );
    // Unknown distribution shape.
    assert_eq!(parse_instruction(&[3u8, 7u8]).unwrap_err(), GameError::InvalidInstructionData);
    // Score count that does not match the bytes.
    let mut bad = scores_bytes(&[(ident(10), 3u64)]);
    bad[2] = 2;
    assert_eq!(parse_instruction(&bad).unwrap_err(), GameError::InvalidInstructionData);
    // Id length that does not match the bytes.
    let mut bad_init = initialize_bytes(b"ab", 1, 1, 10);
    bad_init[1] = 3;
    assert_eq!(parse_instruction(&bad_init).unwrap_err(), GameError::InvalidInstructionData);
}

#[test]
fn processing_a_full_round_over_the_wire() {
    let authority = ident(1);
    let alice = ident(10);
    let bob = ident(11);
    // A placeholder pool for the slot; `initialize` replaces it.
    let mut game = Game::initialize_game(b"slot".to_vec(), authority, 1, 1, 1, 0).unwrap();
    let no_keys: Vec<Identity> = Vec::new();

    let r = process_instruction(
        &mut game,
        authority,
        0,
        &initialize_bytes(b"round-1", 10, 4, 1_000),
        &no_keys,
    );
    assert!(matches!(r.unwrap(), Outcome::Initialized));
    assert_eq!(game.game_id, b"round-1".to_vec());
    assert_eq!(game.authority, authority);

    match process_instruction(&mut game, alice, 100, &join_bytes(60, 2), &no_keys).unwrap() {
        Outcome::Joined { amount } => assert_eq!(amount, 62),
        _ => panic!("expected a join"),
    }
    match process_instruction(&mut game, bob, 101, &join_bytes(40, 2), &no_keys).unwrap() {
        Outcome::Joined { amount } => assert_eq!(amount, 42),
        _ => panic!("expected a join"),
    }
    assert_eq!(game.pot, 100);
    assert_eq!(game.fee_pot, 4);

    let r = process_instruction(&mut game, authority, 500, &[2u8], &no_keys);
    assert!(matches!(r.unwrap(), Outcome::Ended));
    assert_eq!(game.status, GameStatus::Ended);

    let data = scores_bytes(&[(alice, 3), (bob, 1)]);
    let account_keys = vec![alice, bob];
    match process_instruction(&mut game, authority, 600, &data, &account_keys).unwrap() {
        Outcome::ScoresPaid { distribution } => {
            assert_eq!(distribution.payouts, vec![75, 25]);
            assert_eq!(distribution.pot_leftover, 0);
            assert_eq!(distribution.fee_share, 2);
            assert_eq!(distribution.fee_leftover, 0);
        }
        _ => panic!("expected a distribution"),
    }
    assert_eq!(game.status, GameStatus::Completed);
    assert_eq!(game.pot, 0);

    // A second distribution over the wire is refused.
    let r = process_instruction(&mut game, authority, 601, &data, &account_keys);
    assert_eq!(r.unwrap_err(), GameError::AlreadyDistributed);
}

#[test]
fn processing_winner_payout_over_the_wire() {
    let authority = ident(1);
    let mut game = Game::initialize_game(b"round-2".to_vec(), authority, 1, 2, 1_000, 0).unwrap();
    let no_keys: Vec<Identity> = Vec::new();
    process_instruction(&mut game, ident(10), 5, &join_bytes(80, 0), &no_keys).unwrap();
    process_instruction(&mut game, authority, 6, &[2u8], &no_keys).unwrap();
    match process_instruction(&mut game, authority, 7, &winner_bytes(ident(10), 80), &no_keys)
        .unwrap()
    {
        Outcome::WinnerPaid { payout } => {
            assert_eq!(payout.amount, 80);
            assert_eq!(payout.pot_leftover, 0);
        }
        _ => panic!("expected a winner payout"),
    }
    assert_eq!(game.winner, Some(ident(10)));
}

#[test]
fn processing_rejects_undecodable_bytes() {
    let mut game = Game::initialize_game(b"slot".to_vec(), ident(1), 1, 1, 1_000, 0).unwrap();
    let no_keys: Vec<Identity> = Vec::new();
    let r = process_instruction(&mut game, ident(1), 0, &[42u8, 0, 1], &no_keys);
    assert_eq!(r.unwrap_err(), GameError::InvalidInstructionData);
    assert_eq!(game.pot, 0);
    assert_eq!(game.status, GameStatus::Active);
}
