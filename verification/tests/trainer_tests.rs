use tictactoe_q::board::{Board, Player};
use tictactoe_q::qtable::{qkey, QTable, SCALE};
use tictactoe_q::rng::Rng;
use tictactoe_q::trainer::{epsilon_for, play_xq_orandom, qlearning_for_x, update_value, EPS_MIN};

/// The largest table key plus one: board codes stay below 3^9 and the
/// action index below 9.
const KEY_SPACE: u64 = 19683 * 9;

#[test]
fn epsilon_decays_linearly_then_stays_at_the_floor() {
    assert_eq!(epsilon_for(0, 1000), SCALE);
    assert_eq!(epsilon_for(250, 1000), 500_000);
    assert_eq!(epsilon_for(450, 1000), 100_000);
    assert_eq!(epsilon_for(500, 1000), EPS_MIN);
    assert_eq!(epsilon_for(999, 1000), EPS_MIN);
}

#[test]
fn update_value_matches_the_update_formula() {
    // (1 - 0.5) * 1.0 + 0.5 * (1.0 + 0.95 * 0.0) == 1.0
    assert_eq!(update_value(SCALE, 500_000, SCALE, 0), SCALE);
    // alpha 1.0, reward 0, bootstrap 1.0: 0.95 * 1.0
    assert_eq!(update_value(0, SCALE, 0, SCALE), 950_000);
    // alpha 1.0, reward -1.0, no bootstrap
    assert_eq!(update_value(0, SCALE, -SCALE, 0), -SCALE);
    // quotients are rounded toward zero
    assert_eq!(update_value(1, 999_999, 0, 0), 0);
}

#[test]
fn seeded_sampling_is_deterministic() {
    let mut r1 = Rng::seed(123);
    let mut r2 = Rng::seed(123);
    for _ in 0..20 {
        let b1 = Board::random_nonterminal_x_board_with(&mut r1);
        let b2 = Board::random_nonterminal_x_board_with(&mut r2);
        assert_eq!(b1, b2);
    }
}

#[test]
fn rng_draws_stay_below_the_bound() {
    let mut r = Rng::seed(99);
    for n in 1..50u64 {
        let v = r.next_below(n);
        assert!(v < n);
    }
}

#[test]
fn training_is_deterministic_given_a_seed() {
    let q1 = qlearning_for_x(42, 3000);
    let q2 = qlearning_for_x(42, 3000);
    assert_eq!(q1.len(), q2.len());
    for k in 0..KEY_SPACE {
        assert_eq!(q1.get_or(k, i64::MIN), q2.get_or(k, i64::MIN));
    }
}

#[test]
fn different_seeds_give_different_tables() {
    let q1 = qlearning_for_x(1, 3000);
    let q2 = qlearning_for_x(2, 3000);
    let mut differ = false;
    for k in 0..KEY_SPACE {
        if q1.get_or(k, i64::MIN) != q2.get_or(k, i64::MIN) {
            differ = true;
        }
    }
    assert!(differ);
}

#[test]
fn best_action_is_the_first_maximal_action() {
    let b = Board::empty();
    let q = QTable::new();
    // All estimates are 0 on an untrained table: the first legal
    // action in row-major order wins the tie.
    assert_eq!(q.best_action(&b), Some((0, 0)));
    let mut q2 = QTable::new();
    q2.set_q(qkey(&b, (1, 1)), 5 * SCALE);
    assert_eq!(q2.best_action(&b), Some((1, 1)));
}

#[test]
fn best_action_of_a_full_board_is_none() {
    let mut b = Board::empty();
    let players = [
        Player::X,
        Player::O,
        Player::X,
        Player::O,
        Player::X,
        Player::O,
        Player::O,
        Player::X,
        Player::O,
    ];
    let mut i = 0;
    for r in 0..3 {
        for c in 0..3 {
            assert!(b.apply((r, c), players[i]));
            i += 1;
        }
    }
    assert_eq!(QTable::new().best_action(&b), None);
}

#[test]
fn play_is_deterministic_given_a_seed() {
    let q = qlearning_for_x(7, 2000);
    let mut r1 = Rng::seed(11);
    let mut r2 = Rng::seed(11);
    for _ in 0..50 {
        assert_eq!(play_xq_orandom(&q, &mut r1), play_xq_orandom(&q, &mut r2));
    }
}

#[test]
fn trained_policy_beats_a_random_opponent() {
    let q = qlearning_for_x(20_240_612, 120_000);
    let mut rng = Rng::seed(4242);
    let games = 1000;
    let mut x_wins = 0;
    let mut o_wins = 0;
    let mut draws = 0;
    for _ in 0..games {
        match play_xq_orandom(&q, &mut rng) {
            Some(Player::X) => x_wins += 1,
            Some(Player::O) => o_wins += 1,
            None => draws += 1,
        }
    }
    assert!(x_wins + o_wins + draws == games);
    // The learned greedy policy must win clearly more than 80% of
    // games against a uniformly random opponent and lose almost none.
    assert!(x_wins * 100 > 80 * games, "policy won only {x_wins} of {games}");
    assert!(o_wins * 100 < 5 * games, "policy lost {o_wins} of {games}");
}
