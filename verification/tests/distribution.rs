use prompt_detective::errors::GameError;
use prompt_detective::game::{Game, GameStatus};
use prompt_detective::identity::Identity;

fn ident(k: u64) -> Identity {
    Identity::new(k, 0, 0, 0)
}

/// An ended pool whose pot and fee pot were contributed by the given
/// participants, with the authority `ident(1)`.
fn ended_pool(stakes: &[u64], fees: &[u64]) -> Game {
    let mut g =
        Game::initialize_game(b"quiz".to_vec(), ident(1), 1, stakes.len() as u16, 1_000, 0)
            .unwrap();
    for (i, (&stake, &fee)) in stakes.iter().zip(fees.iter()).enumerate() {
        g.join_game(ident(10 + i as u64), stake, fee, 100).unwrap();
    }
    g.end_game(ident(1), 1_000).unwrap();
    g
}

fn pairs(scores: &[u64]) -> Vec<(Identity, u64)> {
    scores.iter().enumerate().map(|(i, &s)| (ident(10 + i as u64), s)).collect()
}

fn keys(n: usize) -> Vec<Identity> {
    (0..n).map(|i| ident(10 + i as u64)).collect()
}

#[test]
fn fairness_proportional_split_exact() {
    // Scores [2, 3, 5] over a pot of 100: payouts [20, 30, 50], nothing left.
    let mut g = ended_pool(&[20, 30, 50], &[0, 0, 0]);
    assert_eq!(g.pot, 100);
    let d = g.distribute_scores(ident(1), &pairs(&[2, 3, 5]), &keys(3)).unwrap();
    assert_eq!(d.payouts, vec![20, 30, 50]);
    assert_eq!(d.pot_leftover, 0);
    assert_eq!(d.fee_share, 0);
    assert_eq!(d.fee_leftover, 0);
    assert_eq!(g.status, GameStatus::Completed);
    assert_eq!(g.pot, 0);
    assert_eq!(g.fee_pot, 0);
    assert_eq!(g.scores, vec![2, 3, 5]);
}

#[test]
fn degenerate_scores_fall_back_to_equal_split() {
    // Scores [0, 0, 0] over a pot of 90: an equal split of 30 each.
    let mut g = ended_pool(&[30, 30, 30], &[0, 0, 0]);
    assert_eq!(g.pot, 90);
    let d = g.distribute_scores(ident(1), &pairs(&[0, 0, 0]), &keys(3)).unwrap();
    assert_eq!(d.payouts, vec![30, 30, 30]);
    assert_eq!(d.pot_leftover, 0);
}

#[test]
fn rounding_leftover_is_reported_not_lost() {
    // Scores [1, 1, 1] over a pot of 100: payouts [33, 33, 33], leftover 1.
    let mut g = ended_pool(&[34, 33, 33], &[0, 0, 0]);
    assert_eq!(g.pot, 100);
    let d = g.distribute_scores(ident(1), &pairs(&[1, 1, 1]), &keys(3)).unwrap();
    assert_eq!(d.payouts, vec![33, 33, 33]);
    assert_eq!(d.pot_leftover, 1);
    let paid: u64 = d.payouts.iter().sum();
    assert_eq!(paid + d.pot_leftover, 100);
}

#[test]
fn fee_pot_splits_evenly_with_remainder_reported() {
    let mut g = ended_pool(&[10, 10, 10], &[3, 3, 4]);
    assert_eq!(g.fee_pot, 10);
    let d = g.distribute_scores(ident(1), &pairs(&[1, 2, 3]), &keys(3)).unwrap();
    assert_eq!(d.fee_share, 3);
    assert_eq!(d.fee_leftover, 1);
    assert_eq!(3 * d.fee_share + d.fee_leftover, 10);
}

#[test]
fn conservation_holds_for_adversarial_values() {
    // Stakes near the 64-bit maximum still add up exactly.
    let stakes = [u64::MAX / 2, u64::MAX / 2 - 10, 11];
    let fees = [7, 0, 1];
    let mut g = ended_pool(&stakes, &fees);
    let total_stake: u64 = stakes.iter().sum();
    let total_fee: u64 = fees.iter().sum();
    assert_eq!(g.pot, total_stake);
    assert_eq!(g.fee_pot, total_fee);
    let d = g.distribute_scores(ident(1), &pairs(&[1, 999_999_999, 3]), &keys(3)).unwrap();
    let paid: u64 = d.payouts.iter().sum();
    assert_eq!(paid + d.pot_leftover, total_stake);
    assert_eq!(3 * d.fee_share + d.fee_leftover, total_fee);
    assert_eq!(
        (paid as u128) + (d.pot_leftover as u128) + 3 * (d.fee_share as u128)
            + (d.fee_leftover as u128),
        (total_stake as u128) + (total_fee as u128)
    );
}

#[test]
fn pot_leftover_stays_below_participant_count() {
    // A pot that divides badly: 7 among scores [3, 3, 3].  Each share is
    // 7*3/9 = 2, so 1 stays behind: less than the 3 participants.
    let mut g = ended_pool(&[3, 2, 2], &[0, 0, 0]);
    let d = g.distribute_scores(ident(1), &pairs(&[3, 3, 3]), &keys(3)).unwrap();
    assert_eq!(d.payouts, vec![2, 2, 2]);
    assert_eq!(d.pot_leftover, 1);
    assert!(d.pot_leftover < 3);
}

#[test]
fn distribute_twice_fails_and_changes_nothing() {
    let mut g = ended_pool(&[20, 30, 50], &[1, 1, 1]);
    g.distribute_scores(ident(1), &pairs(&[2, 3, 5]), &keys(3)).unwrap();
    let pot_after = g.pot;
    let fee_after = g.fee_pot;
    let r = g.distribute_scores(ident(1), &pairs(&[2, 3, 5]), &keys(3));
    assert_eq!(r.unwrap_err(), GameError::AlreadyDistributed);
    assert_eq!(g.pot, pot_after);
    assert_eq!(g.fee_pot, fee_after);
    // The other distribution shape is refused the same way.
    let r2 = g.distribute_winnings(ident(1), ident(10), 0);
    assert_eq!(r2.unwrap_err(), GameError::AlreadyDistributed);
}

#[test]
fn distribute_requires_ended_status() {
    let mut g =
        Game::initialize_game(b"quiz".to_vec(), ident(1), 1, 3, 1_000, 0).unwrap();
    g.join_game(ident(10), 10, 0, 100).unwrap();
    let r = g.distribute_scores(ident(1), &pairs(&[1]), &keys(1));
    assert_eq!(r.unwrap_err(), GameError::GameNotEnded);
}

#[test]
fn distribute_requires_authority() {
    let mut g = ended_pool(&[10, 10], &[0, 0]);
    let r = g.distribute_scores(ident(9), &pairs(&[1, 2]), &keys(2));
    assert_eq!(r.unwrap_err(), GameError::Unauthorized);
    assert_eq!(g.pot, 20);
}

#[test]
fn distribute_rejects_empty_pool() {
    let mut g = Game::initialize_game(b"quiz".to_vec(), ident(1), 1, 3, 1_000, 0).unwrap();
    g.end_game(ident(1), 100).unwrap();
    let r = g.distribute_scores(ident(1), &Vec::new(), &Vec::new());
    assert_eq!(r.unwrap_err(), GameError::NoParticipants);
}

#[test]
fn distribute_rejects_mismatched_identity() {
    let mut g = ended_pool(&[10, 10], &[0, 0]);
    // Second pair names a stranger.
    let bad = vec![(ident(10), 1), (ident(99), 2)];
    let r = g.distribute_scores(ident(1), &bad, &keys(2));
    assert_eq!(r.unwrap_err(), GameError::InvalidAccountData);
    assert_eq!(g.pot, 20);
    assert_eq!(g.status, GameStatus::Ended);
}

#[test]
fn distribute_rejects_mismatched_account_reference() {
    let mut g = ended_pool(&[10, 10], &[0, 0]);
    let bad_keys = vec![ident(10), ident(98)];
    let r = g.distribute_scores(ident(1), &pairs(&[1, 2]), &bad_keys);
    assert_eq!(r.unwrap_err(), GameError::InvalidAccountData);
}

#[test]
fn distribute_rejects_short_score_list() {
    let mut g = ended_pool(&[10, 10], &[0, 0]);
    let r = g.distribute_scores(ident(1), &pairs(&[1]), &keys(2));
    assert_eq!(r.unwrap_err(), GameError::InvalidAccountData);
}

#[test]
fn single_participant_with_nonzero_score_takes_whole_pot() {
    let mut g = ended_pool(&[77], &[5]);
    let d = g.distribute_scores(ident(1), &pairs(&[4]), &keys(1)).unwrap();
    assert_eq!(d.payouts, vec![77]);
    assert_eq!(d.pot_leftover, 0);
    assert_eq!(d.fee_share, 5);
    assert_eq!(d.fee_leftover, 0);
}

#[test]
fn zero_score_participant_is_paid_nothing() {
    let mut g = ended_pool(&[50, 50], &[0, 0]);
    let d = g.distribute_scores(ident(1), &pairs(&[0, 1]), &keys(2)).unwrap();
    assert_eq!(d.payouts, vec![0, 100]);
    assert_eq!(d.pot_leftover, 0);
}

#[test]
fn winner_distribution_moves_exact_amount() {
    let mut g = ended_pool(&[60, 40], &[2, 3]);
    let w = g.distribute_winnings(ident(1), ident(11), 75).unwrap();
    assert_eq!(w.amount, 75);
    assert_eq!(w.pot_leftover, 25);
    assert_eq!(w.fee_leftover, 5);
    assert_eq!(g.status, GameStatus::Completed);
    assert_eq!(g.winner, Some(ident(11)));
    assert_eq!(g.pot, 0);
    assert_eq!(g.fee_pot, 0);
}

#[test]
fn winner_distribution_rejects_uncovered_amount() {
    let mut g = ended_pool(&[60, 40], &[0, 0]);
    let r = g.distribute_winnings(ident(1), ident(11), 101);
    assert_eq!(r.unwrap_err(), GameError::InsufficientFunds);
    assert_eq!(g.pot, 100);
}

#[test]
fn winner_distribution_requires_authority_and_ended() {
    let mut g = Game::initialize_game(b"quiz".to_vec(), ident(1), 1, 3, 1_000, 0).unwrap();
    g.join_game(ident(10), 10, 0, 100).unwrap();
    assert_eq!(
        g.distribute_winnings(ident(1), ident(10), 5).unwrap_err(),
        GameError::GameNotEnded
    );
    g.end_game(ident(1), 100).unwrap();
    assert_eq!(
        g.distribute_winnings(ident(9), ident(10), 5).unwrap_err(),
        GameError::Unauthorized
    );
    g.distribute_winnings(ident(1), ident(10), 5).unwrap();
    assert_eq!(
        g.distribute_winnings(ident(1), ident(10), 5).unwrap_err(),
        GameError::AlreadyDistributed
    );
}
