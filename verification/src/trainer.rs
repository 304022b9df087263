//! The Q-learning trainer and the greedy play driver.
//!
//! One training episode samples a start state where X is to move,
//! selects X's action epsilon-greedily over the action-value table,
//! lets the opponent O answer with one uniformly random legal move,
//! and applies a single temporal-difference update to the table entry
//! of the chosen (state, action) pair.
//!
//! All estimates are fixed-point numbers in units of `1 / SCALE`. The
//! exploration rate decays linearly from 1.0 to 0.1 over the first
//! half of the trials and stays at 0.1 after that; the learning rate
//! equals the exploration rate of the same iteration, and the discount
//! factor is the constant 0.95. Unseen entries start from the
//! optimistic default 1.0, and ties among maximal actions go to the
//! first maximal action in row-major enumeration order. The whole run
//! is an exact function of its seed and trial count.

use crate::board::{cell_index, sample_spec, unoccupied_spec, winner_spec, Board, Player, Square};
use crate::qtable::{best_from, best_rec, qkey, qkey_spec, QTable, DEFAULT_Q, Q_BOUND, SCALE};
use crate::rng::{lcg_next, lcg_output, Rng};
use vstd::arithmetic::div_mod::{
    lemma_div_basics, lemma_div_is_ordered, lemma_div_is_ordered_by_denominator,
    lemma_div_multiples_vanish, lemma_div_pos_is_pos,
};
use vstd::arithmetic::mul::lemma_mul_inequality;
use vstd::prelude::*;

verus! {

/// The numerator of the discount factor 0.95.
pub const GAMMA_NUM: i64 = 95;

/// The denominator of the discount factor 0.95.
pub const GAMMA_DEN: i64 = 100;

/// The floor of the exploration rate: 0.1.
pub const EPS_MIN: i64 = 100_000;

/// The largest trial count the trainer accepts; it keeps the schedule
/// arithmetic within 64 bits.
pub const MAX_TRIALS: usize = 100_000_000;

/// The exploration (and learning) rate of iteration `i` out of
/// `trials`: 1.0 minus `i / (trials / 2)`, never below 0.1.
pub open spec fn eps_spec(i: int, trials: int) -> int {
    let dec = 2 * (SCALE as int) * i / trials;
    if SCALE - dec < EPS_MIN {
        EPS_MIN as int
    } else {
        SCALE - dec
    }
}

/// The exploration rate of iteration `i` out of `trials`.
pub fn epsilon_for(i: usize, trials: usize) -> (e: i64)
    requires
        1 <= trials <= MAX_TRIALS,
        i < trials,
    ensures
        e == eps_spec(i as int, trials as int),
        EPS_MIN <= e <= SCALE,
{
    let two_scale: u64 = 2_000_000;
    assert(two_scale == 2 * (SCALE as u64));
    let dec: u64 = two_scale * (i as u64) / (trials as u64);
    if dec > (SCALE - EPS_MIN) as u64 {
        EPS_MIN
    } else {
        SCALE - dec as i64
    }
}

/// The quotient of `a` by the positive `b`, rounded toward zero, as
/// the fixed-point update computes it.
pub open spec fn div_trunc(a: int, b: int) -> int {
    if a >= 0 {
        a / b
    } else {
        -((-a) / b)
    }
}

/// The quotient of `a` by the positive `b`, rounded toward zero.
fn div_trunc_exec(a: i64, b: i64) -> (r: i64)
    requires
        b > 0,
        a > i64::MIN,
    ensures
        r == div_trunc(a as int, b as int),
{
    proof {
        // The quotient exists and fits: its magnitude never exceeds |a|.
        if a >= 0 {
            lemma_div_basics(a as int);
            lemma_div_is_ordered_by_denominator(a as int, 1, b as int);
            lemma_div_pos_is_pos(a as int, b as int);
        } else {
            lemma_div_basics(-(a as int));
            lemma_div_is_ordered_by_denominator(-(a as int), 1, b as int);
            lemma_div_pos_is_pos(-(a as int), b as int);
        }
    }
    match a.checked_div(b) {
        Some(r) => r,
        None => 0,  // unreachable: the divisor is positive and the dividend above i64::MIN
    }
}

/// Rounding toward zero never grows the magnitude of a bound: if
/// `|a| <= b * c` then `|div_trunc(a, b)| <= c`.
proof fn lemma_div_trunc_bound(a: int, b: int, c: int)
    requires
        b > 0,
        0 <= c,
        -(b * c) <= a <= b * c,
    ensures
        -c <= div_trunc(a, b) <= c,
{
    lemma_div_multiples_vanish(c, b);
    if a >= 0 {
        lemma_div_is_ordered(a, b * c, b);
        lemma_div_pos_is_pos(a, b);
    } else {
        lemma_div_is_ordered(-a, b * c, b);
        lemma_div_pos_is_pos(-a, b);
    }
}

/// The reward of a finished board: 1.0 when X won, -1.0 when O won.
pub open spec fn reward_spec(p: Player) -> int {
    match p {
        Player::X => SCALE as int,
        Player::O => -(SCALE as int),
    }
}

/// The reward of a finished board.
fn reward(p: Player) -> (r: i64)
    ensures
        r == reward_spec(p),
{
    match p {
        Player::X => SCALE,
        Player::O => -SCALE,
    }
}

/// One temporal-difference update of the estimate `qsa`:
/// `(1 - alpha) * qsa + alpha * (r + gamma * maxi)`, in fixed-point
/// arithmetic with quotients rounded toward zero.
pub open spec fn td_update(qsa: int, alpha: int, r: int, maxi: int) -> int {
    let target = r + div_trunc(maxi * (GAMMA_NUM as int), GAMMA_DEN as int);
    div_trunc(((SCALE as int) - alpha) * qsa + alpha * target, SCALE as int)
}

/// A temporal-difference update of a bounded estimate from a bounded
/// bootstrap term stays bounded.
proof fn lemma_td_update_bounded(qsa: int, alpha: int, r: int, maxi: int)
    requires
        0 <= alpha <= SCALE as int,
        -(SCALE as int) <= r <= SCALE as int,
        -(Q_BOUND as int) <= qsa <= Q_BOUND as int,
        -(Q_BOUND as int) <= maxi <= Q_BOUND as int,
    ensures
        -(Q_BOUND as int) <= td_update(qsa, alpha, r, maxi) <= Q_BOUND as int,
{
    let g = div_trunc(maxi * (GAMMA_NUM as int), GAMMA_DEN as int);
    assert(-(Q_BOUND as int) * (GAMMA_NUM as int) <= maxi * (GAMMA_NUM as int) <= (
    Q_BOUND as int) * (GAMMA_NUM as int)) by {
        lemma_mul_inequality(maxi, Q_BOUND as int, GAMMA_NUM as int);
        lemma_mul_inequality(-(Q_BOUND as int), maxi, GAMMA_NUM as int);
    }
    lemma_div_trunc_bound(maxi * (GAMMA_NUM as int), GAMMA_DEN as int, 19_000_000);
    let target = r + g;
    assert(-(Q_BOUND as int) <= target <= Q_BOUND as int);
    let s = SCALE as int;
    let num = (s - alpha) * qsa + alpha * target;
    assert((s - alpha) * qsa <= (s - alpha) * (Q_BOUND as int)) by {
        lemma_mul_inequality(qsa, Q_BOUND as int, s - alpha);
    }
    assert((s - alpha) * (-(Q_BOUND as int)) <= (s - alpha) * qsa) by {
        lemma_mul_inequality(-(Q_BOUND as int), qsa, s - alpha);
    }
    assert(alpha * target <= alpha * (Q_BOUND as int)) by {
        lemma_mul_inequality(target, Q_BOUND as int, alpha);
    }
    assert(alpha * (-(Q_BOUND as int)) <= alpha * target) by {
        lemma_mul_inequality(-(Q_BOUND as int), target, alpha);
    }
    assert((s - alpha) * (Q_BOUND as int) + alpha * (Q_BOUND as int) == s * (Q_BOUND as int))
        by (nonlinear_arith);
    assert((s - alpha) * (-(Q_BOUND as int)) + alpha * (-(Q_BOUND as int)) == s * (-(
    Q_BOUND as int))) by (nonlinear_arith);
    assert(-((Q_BOUND as int) * s) <= num <= (Q_BOUND as int) * s) by (nonlinear_arith)
        requires
            num == (s - alpha) * qsa + alpha * target,
            (s - alpha) * qsa + alpha * target <= s * (Q_BOUND as int),
            s * (-(Q_BOUND as int)) <= (s - alpha) * qsa + alpha * target,
    ;
    lemma_div_trunc_bound(num, s, Q_BOUND as int);
}

/// One temporal-difference update, in executable fixed-point
/// arithmetic.
pub fn update_value(qsa: i64, alpha: i64, r: i64, maxi: i64) -> (v: i64)
    requires
        0 <= alpha <= SCALE,
        -SCALE <= r <= SCALE,
        -Q_BOUND <= qsa <= Q_BOUND,
        -Q_BOUND <= maxi <= Q_BOUND,
    ensures
        v == td_update(qsa as int, alpha as int, r as int, maxi as int),
        -Q_BOUND <= v <= Q_BOUND,
{
    proof {
        lemma_td_update_bounded(qsa as int, alpha as int, r as int, maxi as int);
        lemma_mul_inequality(maxi as int, Q_BOUND as int, GAMMA_NUM as int);
        lemma_mul_inequality(-(Q_BOUND as int), maxi as int, GAMMA_NUM as int);
        lemma_div_trunc_bound(maxi as int * (GAMMA_NUM as int), GAMMA_DEN as int, 19_000_000);
    }
    let g = div_trunc_exec(maxi * GAMMA_NUM, GAMMA_DEN);
    let target = r + g;
    proof {
        lemma_mul_inequality(qsa as int, Q_BOUND as int, SCALE as int - alpha as int);
        lemma_mul_inequality(-(Q_BOUND as int), qsa as int, SCALE as int - alpha as int);
        lemma_mul_inequality(target as int, Q_BOUND as int, alpha as int);
        lemma_mul_inequality(-(Q_BOUND as int), target as int, alpha as int);
    }
    let num = (SCALE - alpha) * qsa + alpha * target;
    div_trunc_exec(num, SCALE)
}

/// The table after the first `n` of the actions of board `b` in
/// `acts` are given entries: each first-visited (board, action) pair
/// starts from the optimistic default.
pub open spec fn with_defaults_rec(
    q: Map<u64, i64>,
    b: Seq<Square>,
    acts: Seq<(usize, usize)>,
    n: int,
) -> Map<u64, i64>
    decreases n,
{
    if n <= 0 {
        q
    } else {
        let q2 = with_defaults_rec(q, b, acts, n - 1);
        let k = qkey_spec(b, acts[n - 1]) as u64;
        if q2.contains_key(k) {
            q2
        } else {
            q2.insert(k, DEFAULT_Q)
        }
    }
}

/// Create an entry for every legal action of `b` in `acts`, in order,
/// each first-visited pair starting from the optimistic default.
fn insert_defaults(q: &mut QTable, b: &Board, acts: &Vec<(usize, usize)>)
    requires
        old(q).wf(),
        forall|t: int| 0 <= t < acts@.len() ==> (#[trigger] acts@[t]).0 < 3 && acts@[t].1 < 3,
    ensures
        final(q)@ == with_defaults_rec(old(q)@, b@, acts@, acts@.len() as int),
        final(q).wf(),
        forall|t: int|
            0 <= t < acts@.len() ==> final(q)@.contains_key(
                qkey_spec(b@, #[trigger] acts@[t]) as u64,
            ),
{
    let mut t: usize = 0;
    while t < acts.len()
        invariant
            t <= acts@.len(),
            q.wf(),
            forall|u: int| 0 <= u < acts@.len() ==> (#[trigger] acts@[u]).0 < 3 && acts@[u].1 < 3,
            q@ == with_defaults_rec(old(q)@, b@, acts@, t as int),
            forall|u: int|
                0 <= u < t ==> q@.contains_key(qkey_spec(b@, #[trigger] acts@[u]) as u64),
        decreases acts@.len() - t,
    {
        let k = qkey(b, acts[t]);
        q.ensure_entry(k);
        t = t + 1;
    }
}

/// The greedy choice among the first `n` actions: the first action
/// whose estimate is maximal, in enumeration order. Every named entry
/// is expected to be present in the table.
pub open spec fn greedy_rec(
    q: Map<u64, i64>,
    b: Seq<Square>,
    acts: Seq<(usize, usize)>,
    n: int,
) -> (usize, usize)
    decreases n,
{
    if n <= 1 {
        acts[0]
    } else {
        let prev = greedy_rec(q, b, acts, n - 1);
        if q[qkey_spec(b, acts[n - 1]) as u64] > q[qkey_spec(b, prev) as u64] {
            acts[n - 1]
        } else {
            prev
        }
    }
}

/// The first action of `acts` whose table estimate is maximal, in
/// enumeration order.
fn greedy_action(q: &QTable, b: &Board, acts: &Vec<(usize, usize)>) -> (a: (usize, usize))
    requires
        acts@.len() >= 1,
        forall|t: int| 0 <= t < acts@.len() ==> (#[trigger] acts@[t]).0 < 3 && acts@[t].1 < 3,
        forall|t: int|
            0 <= t < acts@.len() ==> q@.contains_key(qkey_spec(b@, #[trigger] acts@[t]) as u64),
    ensures
        a == greedy_rec(q@, b@, acts@, acts@.len() as int),
        acts@.contains(a),
{
    let mut best = acts[0];
    let k0 = qkey(b, best);
    let mut best_v = q.get_or(k0, 0);
    proof {
        assert(acts@[0] == best);
    }
    let mut t: usize = 1;
    while t < acts.len()
        invariant
            1 <= t <= acts@.len(),
            forall|u: int| 0 <= u < acts@.len() ==> (#[trigger] acts@[u]).0 < 3 && acts@[u].1 < 3,
            forall|u: int|
                0 <= u < acts@.len() ==> q@.contains_key(qkey_spec(b@, #[trigger] acts@[u]) as u64),
            best == greedy_rec(q@, b@, acts@, t as int),
            acts@.contains(best),
            best_v == q@[qkey_spec(b@, best) as u64],
        decreases acts@.len() - t,
    {
        let cand = acts[t];
        let k = qkey(b, cand);
        let v = q.get_or(k, 0);
        if v > best_v {
            best = cand;
            best_v = v;
            proof {
                assert(acts@[t as int] == best);
            }
        }
        t = t + 1;
    }
    best
}

/// The largest estimate among the first `n` actions, or 0 when there
/// is none: the bootstrap term of the update. Every named entry is
/// expected to be present in the table.
pub open spec fn max_q_rec(
    q: Map<u64, i64>,
    b: Seq<Square>,
    acts: Seq<(usize, usize)>,
    n: int,
) -> int
    decreases n,
{
    if n <= 0 {
        0
    } else if n == 1 {
        q[qkey_spec(b, acts[0]) as u64] as int
    } else {
        let prev = max_q_rec(q, b, acts, n - 1);
        let v = q[qkey_spec(b, acts[n - 1]) as u64] as int;
        if v > prev {
            v
        } else {
            prev
        }
    }
}

/// The largest estimate among the actions of `acts`, or 0 when `acts`
/// is empty.
fn max_q(q: &QTable, b: &Board, acts: &Vec<(usize, usize)>) -> (m: i64)
    requires
        q.wf(),
        forall|t: int| 0 <= t < acts@.len() ==> (#[trigger] acts@[t]).0 < 3 && acts@[t].1 < 3,
        forall|t: int|
            0 <= t < acts@.len() ==> q@.contains_key(qkey_spec(b@, #[trigger] acts@[t]) as u64),
    ensures
        m == max_q_rec(q@, b@, acts@, acts@.len() as int),
        -Q_BOUND <= m <= Q_BOUND,
{
    if acts.len() == 0 {
        return 0;
    }
    let k0 = qkey(b, acts[0]);
    let mut m = q.get_or(k0, 0);
    let mut t: usize = 1;
    while t < acts.len()
        invariant
            1 <= t <= acts@.len(),
            q.wf(),
            forall|u: int| 0 <= u < acts@.len() ==> (#[trigger] acts@[u]).0 < 3 && acts@[u].1 < 3,
            forall|u: int|
                0 <= u < acts@.len() ==> q@.contains_key(qkey_spec(b@, #[trigger] acts@[u]) as u64),
            m == max_q_rec(q@, b@, acts@, t as int),
            -Q_BOUND <= m <= Q_BOUND,
        decreases acts@.len() - t,
    {
        let k = qkey(b, acts[t]);
        let v = q.get_or(k, 0);
        if v > m {
            m = v;
        }
        t = t + 1;
    }
    m
}

/// One training episode from the table `q`, the generator state `s`
/// and the iteration index `i` out of `trials`: sample a start state;
/// when it has no legal action, the iteration is a no-op; otherwise
/// select X's action epsilon-greedily, let O answer one random legal
/// move unless the game already ended, and fold the reward and the
/// bootstrap term into the entry of the chosen pair. Yields the new
/// table and the new generator state.
pub open spec fn episode_spec(q: Map<u64, i64>, s: u64, i: int, trials: int) -> (
    Map<u64, i64>,
    u64,
) {
    let (b, s1) = sample_spec(s);
    let acts = unoccupied_spec(b);
    if acts.len() == 0 {
        (q, s1)
    } else {
        let eps = eps_spec(i, trials);
        let s2 = lcg_next(s1);
        let e = lcg_output(s2) % (SCALE as u64);
        let (q1, a, s3) = if (e as int) < eps {
            let s3 = lcg_next(s2);
            let idx = lcg_output(s3) % (acts.len() as u64);
            (q, acts[idx as int], s3)
        } else {
            let q1 = with_defaults_rec(q, b, acts, acts.len() as int);
            (q1, greedy_rec(q1, b, acts, acts.len() as int), s2)
        };
        let nb = b.update(cell_index(a.0 as int, a.1 as int), Square::Occupied(Player::X));
        let (succ, r, s4) = match winner_spec(nb) {
            Some(p) => (nb, reward_spec(p), s3),
            None => {
                let acts2 = unoccupied_spec(nb);
                if acts2.len() > 0 {
                    let s4 = lcg_next(s3);
                    let j = lcg_output(s4) % (acts2.len() as u64);
                    let a2 = acts2[j as int];
                    let nb2 = nb.update(
                        cell_index(a2.0 as int, a2.1 as int),
                        Square::Occupied(Player::O),
                    );
                    match winner_spec(nb2) {
                        Some(p) => (nb2, reward_spec(p), s4),
                        None => (nb2, 0int, s4),
                    }
                } else {
                    (nb, 0int, s3)
                }
            },
        };
        let acts3 = unoccupied_spec(succ);
        let q2 = with_defaults_rec(q1, succ, acts3, acts3.len() as int);
        let maxi = max_q_rec(q2, succ, acts3, acts3.len() as int);
        let key = qkey_spec(b, a) as u64;
        let q3 = if q2.contains_key(key) {
            q2
        } else {
            q2.insert(key, DEFAULT_Q)
        };
        let v = td_update(q3[key] as int, eps, r, maxi);
        (q3.insert(key, v as i64), s4)
    }
}

/// One training episode, mirroring `episode_spec` exactly.
fn episode(q: &mut QTable, rng: &mut Rng, i: usize, trials: usize)
    requires
        old(q).wf(),
        1 <= trials <= MAX_TRIALS,
        i < trials,
    ensures
        final(q).wf(),
        (final(q)@, final(rng)@) == episode_spec(old(q)@, old(rng)@, i as int, trials as int),
{
    let s = Board::random_nonterminal_x_board_with(rng);
    let acts = s.get_unoccupied();
    if acts.len() == 0 {
        return;
    }
    let eps = epsilon_for(i, trials);
    let e = rng.next_below(SCALE as u64);
    let a: (usize, usize);
    if e < eps as u64 {
        let idx = rng.next_below(acts.len() as u64) as usize;
        a = acts[idx];
    } else {
        insert_defaults(q, &s, &acts);
        a = greedy_action(q, &s, &acts);
    }
    proof {
        let u = choose|u: int| 0 <= u < acts@.len() && acts@[u] == a;
        assert(s@[cell_index(a.0 as int, a.1 as int)] == Square::Empty);
    }
    let mut nb = s;
    let _ok = nb.apply(a, Player::X);
    let w = nb.get_winner();
    let succ: Board;
    let r: i64;
    match w {
        Some(p) => {
            succ = nb;
            r = reward(p);
        },
        None => {
            let acts2 = nb.get_unoccupied();
            if acts2.len() > 0 {
                let j = rng.next_below(acts2.len() as u64) as usize;
                let a2 = acts2[j];
                let mut nb2 = nb;
                let _ok = nb2.apply(a2, Player::O);
                match nb2.get_winner() {
                    Some(p) => {
                        succ = nb2;
                        r = reward(p);
                    },
                    None => {
                        succ = nb2;
                        r = 0;
                    },
                }
            } else {
                succ = nb;
                r = 0;
            }
        },
    }
    let acts3 = succ.get_unoccupied();
    insert_defaults(q, &succ, &acts3);
    let maxi = max_q(q, &succ, &acts3);
    let key = qkey(&s, a);
    q.ensure_entry(key);
    let qsa = q.get_or(key, 0);
    let v = update_value(qsa, eps, r, maxi);
    q.set_q(key, v);
}

/// The table and generator state after the first `i` of `trials`
/// training episodes from the given seed, starting from the empty
/// table.
pub open spec fn train_upto(seed: u64, i: int, trials: int) -> (Map<u64, i64>, u64)
    decreases i,
{
    if i <= 0 {
        (Map::<u64, i64>::empty(), seed)
    } else {
        let (q, s) = train_upto(seed, i - 1, trials);
        episode_spec(q, s, i - 1, trials)
    }
}

/// The action-value table a full training run produces: `trials`
/// episodes from the given seed.
pub open spec fn train_spec(seed: u64, trials: int) -> Map<u64, i64> {
    train_upto(seed, trials, trials).0
}

/// Use Q-learning to learn an action-value table for the X player,
/// who always moves first: `trials` single-update episodes from
/// sampled start states, driven by a generator seeded with `seed`.
/// The resulting table is an exact function of the seed and the trial
/// count, and every estimate in it is bounded.
pub fn qlearning_for_x(seed: u64, trials: usize) -> (q: QTable)
    requires
        1 <= trials <= MAX_TRIALS,
    ensures
        q.wf(),
        q@ == train_spec(seed, trials as int),
{
    let mut rng = Rng::seed(seed);
    let mut q = QTable::new();
    let mut i: usize = 0;
    while i < trials
        invariant
            i <= trials,
            1 <= trials <= MAX_TRIALS,
            q.wf(),
            (q@, rng@) == train_upto(seed, i as int, trials as int),
        decreases trials - i,
    {
        episode(&mut q, &mut rng, i, trials);
        i = i + 1;
    }
    q
}

/// One game between the table's greedy policy as X and a uniformly
/// random opponent as O, from the board `b` with `xturn` saying whose
/// move it is: the winner when a line is complete, `None` on a full
/// board without one, and `None` too when the move fuel runs out.
/// Yields the outcome and the following generator state.
pub open spec fn play_rec(q: Map<u64, i64>, b: Seq<Square>, s: u64, xturn: bool, fuel: nat) -> (
    Option<Player>,
    u64,
)
    decreases fuel,
{
    if winner_spec(b) is Some {
        (winner_spec(b), s)
    } else if unoccupied_spec(b).len() == 0 {
        (None, s)
    } else if fuel == 0 {
        (None, s)
    } else {
        let acts = unoccupied_spec(b);
        if xturn {
            let a = best_rec(q, b, acts, acts.len() as int);
            let b2 = b.update(cell_index(a.0 as int, a.1 as int), Square::Occupied(Player::X));
            play_rec(q, b2, s, false, (fuel - 1) as nat)
        } else {
            let s2 = lcg_next(s);
            let j = lcg_output(s2) % (acts.len() as u64);
            let a = acts[j as int];
            let b2 = b.update(cell_index(a.0 as int, a.1 as int), Square::Occupied(Player::O));
            play_rec(q, b2, s2, true, (fuel - 1) as nat)
        }
    }
}

/// The outcome of one game from the empty board, X (the greedy
/// policy) moving first: nine moves always finish the game.
pub open spec fn play_spec(q: Map<u64, i64>, s: u64) -> (Option<Player>, u64) {
    play_rec(q, Seq::new(9, |i: int| Square::Empty), s, true, 9)
}

/// Play one game where X follows the greedy policy of the finished
/// table and O plays uniformly random legal moves, from the empty
/// board. Returns the winner, or `None` for a draw; the outcome is an
/// exact function of the table and the starting generator state.
pub fn play_xq_orandom(q: &QTable, rng: &mut Rng) -> (w: Option<Player>)
    ensures
        w == play_spec(q@, old(rng)@).0,
        final(rng)@ == play_spec(q@, old(rng)@).1,
{
    let mut board = Board::empty();
    proof {
        assert(board@ =~= Seq::new(9, |i: int| Square::Empty));
    }
    let ghost s0 = rng@;
    let mut xturn = true;
    let mut moves: usize = 0;
    while moves < 9
        invariant
            moves <= 9,
            play_spec(q@, s0) == play_rec(q@, board@, rng@, xturn, (9 - moves) as nat),
        decreases 9 - moves,
    {
        let w = board.get_winner();
        let acts = board.get_unoccupied();
        if w.is_some() || acts.len() == 0 {
            // The game has ended; the remaining fuel no longer matters.
            moves = 9;
        } else {
            let a: (usize, usize);
            if xturn {
                a = best_from(q, &board, &acts);
                proof {
                    let u = choose|u: int| 0 <= u < acts@.len() && acts@[u] == a;
                    assert(board@[cell_index(a.0 as int, a.1 as int)] == Square::Empty);
                }
                let _ok = board.apply(a, Player::X);
                xturn = false;
            } else {
                let j = rng.next_below(acts.len() as u64) as usize;
                a = acts[j];
                let _ok = board.apply(a, Player::O);
                xturn = true;
            }
            moves = moves + 1;
        }
    }
    board.get_winner()
}

/// Determinism of training: two runs with the same seed and the same
/// trial count produce identical action-value tables.
pub proof fn lemma_training_deterministic(
    t1: Map<u64, i64>,
    t2: Map<u64, i64>,
    seed: u64,
    trials: int,
)
    requires
        t1 == train_spec(seed, trials),
        t2 == train_spec(seed, trials),
    ensures
        t1 == t2,
{
}

} // verus!
