//! The action-value table of the trainer: a map from (board, action)
//! pairs to fixed-point value estimates.
//!
//! Values are signed fixed-point numbers in units of `1 / SCALE`, kept
//! within `[-Q_BOUND, Q_BOUND]`, so every estimate is finite and the
//! update arithmetic cannot overflow. A (board, action) pair is keyed
//! by the base-3 encoding of the nine cells combined with the
//! row-major action index.

use crate::board::{cell_index, unoccupied_spec, Board, Player, Square};
use std::collections::HashMap;
use vstd::arithmetic::div_mod::lemma_fundamental_div_mod_converse;
use vstd::prelude::*;

verus! {

broadcast use vstd::std_specs::hash::group_hash_axioms;

/// The fixed-point unit: this many table units stand for 1.0.
pub const SCALE: i64 = 1_000_000;

/// The value a (board, action) pair starts from when it is first
/// visited: an optimistic 1.0, to encourage early exploration.
pub const DEFAULT_Q: i64 = 1_000_000;

/// A bound every stored value keeps: 20.0, which is
/// `1 / (1 - gamma)` for the discount factor 0.95, so one update of a
/// bounded table with a reward of at most 1.0 stays bounded.
pub const Q_BOUND: i64 = 20_000_000;

/// The base-3 digit of a square: 0 empty, 1 X, 2 O.
pub open spec fn square_digit(s: Square) -> u64 {
    match s {
        Square::Empty => 0u64,
        Square::Occupied(Player::X) => 1u64,
        Square::Occupied(Player::O) => 2u64,
    }
}

/// The base-3 encoding of a board's nine cells, row-major with cell 0
/// as the least significant digit. Distinct boards get distinct codes.
pub open spec fn board_code_spec(b: Seq<Square>) -> int {
    square_digit(b[0]) + 3 * square_digit(b[1]) + 9 * square_digit(b[2]) + 27 * square_digit(b[3])
        + 81 * square_digit(b[4]) + 243 * square_digit(b[5]) + 729 * square_digit(b[6]) + 2187
        * square_digit(b[7]) + 6561 * square_digit(b[8])
}

/// The table key of a (board, action) pair: the board code in the high
/// digits, the row-major action index in the low ones.
pub open spec fn qkey_spec(b: Seq<Square>, a: (usize, usize)) -> int {
    board_code_spec(b) * 9 + cell_index(a.0 as int, a.1 as int)
}

/// The board code read digit by digit from cell `i` up: the same
/// value as the flat weighted sum, in the shape a base-3 digit
/// extraction works on.
pub open spec fn code_from(b: Seq<Square>, i: int) -> int
    decreases 9 - i,
{
    if i < 0 || i >= 9 {
        0
    } else {
        square_digit(b[i]) + 3 * code_from(b, i + 1)
    }
}

/// Partial board codes are nonnegative and below the capacity of the
/// remaining digits.
proof fn lemma_code_from_range(b: Seq<Square>, i: int)
    ensures
        0 <= code_from(b, i),
    decreases 9 - i,
{
    if 0 <= i < 9 {
        lemma_code_from_range(b, i + 1);
    }
}

/// Boards with equal codes agree on every cell from `i` up: base-3
/// digits are recovered uniquely from the code.
proof fn lemma_code_from_injective(b1: Seq<Square>, b2: Seq<Square>, i: int)
    requires
        0 <= i <= 9,
        code_from(b1, i) == code_from(b2, i),
    ensures
        forall|j: int| i <= j < 9 ==> b1[j] == b2[j],
    decreases 9 - i,
{
    if i < 9 {
        let d1 = square_digit(b1[i]) as int;
        let r1 = code_from(b1, i + 1);
        let d2 = square_digit(b2[i]) as int;
        let r2 = code_from(b2, i + 1);
        lemma_code_from_range(b1, i + 1);
        lemma_code_from_range(b2, i + 1);
        lemma_fundamental_div_mod_converse(code_from(b1, i), 3, r1, d1);
        lemma_fundamental_div_mod_converse(code_from(b2, i), 3, r2, d2);
        assert(d1 == d2 && r1 == r2);
        assert(b1[i] == b2[i]);
        lemma_code_from_injective(b1, b2, i + 1);
    }
}

/// The flat weighted sum and the digit-by-digit code agree.
proof fn lemma_code_from_is_board_code(b: Seq<Square>)
    ensures
        board_code_spec(b) == code_from(b, 0),
{
    reveal_with_fuel(code_from, 10);
}

/// The table key is injective: two (board, action) pairs share a key
/// only when they are the same board and the same action, so no table
/// update can touch the entry of any other pair.
pub proof fn lemma_qkey_injective(
    b1: Seq<Square>,
    a1: (usize, usize),
    b2: Seq<Square>,
    a2: (usize, usize),
)
    requires
        b1.len() == 9,
        b2.len() == 9,
        a1.0 < 3,
        a1.1 < 3,
        a2.0 < 3,
        a2.1 < 3,
        qkey_spec(b1, a1) == qkey_spec(b2, a2),
    ensures
        b1 == b2,
        a1 == a2,
{
    let c1 = board_code_spec(b1);
    let c2 = board_code_spec(b2);
    let i1 = cell_index(a1.0 as int, a1.1 as int);
    let i2 = cell_index(a2.0 as int, a2.1 as int);
    lemma_code_from_is_board_code(b1);
    lemma_code_from_is_board_code(b2);
    lemma_code_from_range(b1, 0);
    lemma_code_from_range(b2, 0);
    lemma_fundamental_div_mod_converse(c1 * 9 + i1, 9, c1, i1);
    lemma_fundamental_div_mod_converse(c2 * 9 + i2, 9, c2, i2);
    assert(c1 == c2 && i1 == i2);
    lemma_fundamental_div_mod_converse(i1, 3, a1.0 as int, a1.1 as int);
    lemma_fundamental_div_mod_converse(i2, 3, a2.0 as int, a2.1 as int);
    lemma_code_from_injective(b1, b2, 0);
    assert(b1 =~= b2);
}

/// The base-3 digit of a square.
fn square_digit_exec(s: Square) -> (d: u64)
    ensures
        d == square_digit(s),
        d <= 2,
{
    match s {
        Square::Empty => 0,
        Square::Occupied(Player::X) => 1,
        Square::Occupied(Player::O) => 2,
    }
}

/// The table key of a (board, action) pair.
#[verifier::rlimit(100)]
pub fn qkey(b: &Board, a: (usize, usize)) -> (k: u64)
    requires
        a.0 < 3,
        a.1 < 3,
    ensures
        k == qkey_spec(b@, a),
{
    let d0 = square_digit_exec(b.get(0, 0));
    let d1 = square_digit_exec(b.get(0, 1));
    let d2 = square_digit_exec(b.get(0, 2));
    let d3 = square_digit_exec(b.get(1, 0));
    let d4 = square_digit_exec(b.get(1, 1));
    let d5 = square_digit_exec(b.get(1, 2));
    let d6 = square_digit_exec(b.get(2, 0));
    let d7 = square_digit_exec(b.get(2, 1));
    let d8 = square_digit_exec(b.get(2, 2));
    let mut code: u64 = d0;
    code = code + 3 * d1;
    code = code + 9 * d2;
    code = code + 27 * d3;
    code = code + 81 * d4;
    code = code + 243 * d5;
    code = code + 729 * d6;
    code = code + 2187 * d7;
    code = code + 6561 * d8;
    assert(code <= 19682);
    assert(code == board_code_spec(b@));
    let act: u64 = (a.0 * 3 + a.1) as u64;
    code * 9 + act
}

/// The learned action-value table, from (board, action) keys to
/// fixed-point value estimates.
pub struct QTable {
    map: HashMap<u64, i64>,
}

impl View for QTable {
    type V = Map<u64, i64>;

    closed spec fn view(&self) -> Map<u64, i64> {
        self.map@
    }
}

impl QTable {
    /// Every stored value lies within `[-Q_BOUND, Q_BOUND]`.
    pub open spec fn wf(self) -> bool {
        forall|k: u64| self@.contains_key(k) ==> -Q_BOUND <= #[trigger] self@[k] <= Q_BOUND
    }

    /// An empty table.
    pub fn new() -> (t: QTable)
        ensures
            t@ == Map::<u64, i64>::empty(),
            t.wf(),
    {
        QTable { map: HashMap::new() }
    }

    /// How many (board, action) pairs the table holds.
    pub fn len(&self) -> (n: usize)
        ensures
            n == self@.len(),
    {
        self.map.len()
    }

    /// Whether the table holds an entry for the key.
    pub fn contains(&self, k: u64) -> (r: bool)
        ensures
            r == self@.contains_key(k),
    {
        self.map.contains_key(&k)
    }

    /// The value stored under the key, or `default` when the key has
    /// no entry yet.
    pub fn get_or(&self, k: u64, default: i64) -> (v: i64)
        ensures
            v == if self@.contains_key(k) {
                self@[k]
            } else {
                default
            },
    {
        match self.map.get(&k) {
            Some(v) => *v,
            None => default,
        }
    }

    /// Store a value under the key, keeping the table bounded.
    pub fn set_q(&mut self, k: u64, v: i64)
        requires
            -Q_BOUND <= v <= Q_BOUND,
        ensures
            final(self)@ == old(self)@.insert(k, v),
            old(self).wf() ==> final(self).wf(),
    {
        self.map.insert(k, v);
        proof {
            if old(self).wf() {
                assert forall|k2: u64| self@.contains_key(k2) implies -Q_BOUND <= #[trigger] self@[k2]
                    <= Q_BOUND by {
                    if k2 != k {
                        assert(old(self)@.contains_key(k2));
                    }
                }
            }
        }
    }

    /// Create the entry for a first-visited key, explicitly, with the
    /// default value; an existing entry is left as it is.
    pub fn ensure_entry(&mut self, k: u64)
        ensures
            final(self)@ == if old(self)@.contains_key(k) {
                old(self)@
            } else {
                old(self)@.insert(k, DEFAULT_Q)
            },
            old(self).wf() ==> final(self).wf(),
    {
        if !self.map.contains_key(&k) {
            self.map.insert(k, DEFAULT_Q);
            proof {
                if old(self).wf() {
                    assert forall|k2: u64| self@.contains_key(k2) implies -Q_BOUND
                        <= #[trigger] self@[k2] <= Q_BOUND by {
                        if k2 != k {
                            assert(old(self)@.contains_key(k2));
                        }
                    }
                }
            }
        }
    }

    /// The greedy action of the table for a board: the first of the
    /// board's legal actions whose estimate is maximal, unseen pairs
    /// counting as 0; `None` exactly when the board has no legal
    /// action.
    pub fn best_action(&self, b: &Board) -> (r: Option<(usize, usize)>)
        ensures
            unoccupied_spec(b@).len() == 0 <==> r is None,
            r matches Some(a) ==> a == best_rec(
                self@,
                b@,
                unoccupied_spec(b@),
                unoccupied_spec(b@).len() as int,
            ),
    {
        let acts = b.get_unoccupied();
        if acts.len() == 0 {
            None
        } else {
            Some(best_from(self, b, &acts))
        }
    }
}

/// The estimate of a key, unseen keys counting as 0: the value the
/// finished table plays by.
pub open spec fn q_or0(q: Map<u64, i64>, k: u64) -> int {
    if q.contains_key(k) {
        q[k] as int
    } else {
        0
    }
}

/// The greedy choice of a finished table among the first `n` actions:
/// the first action whose estimate is maximal, in enumeration order,
/// unseen pairs counting as 0.
pub open spec fn best_rec(
    q: Map<u64, i64>,
    b: Seq<Square>,
    acts: Seq<(usize, usize)>,
    n: int,
) -> (usize, usize)
    decreases n,
{
    if n <= 1 {
        acts[0]
    } else {
        let prev = best_rec(q, b, acts, n - 1);
        if q_or0(q, qkey_spec(b, acts[n - 1]) as u64) > q_or0(q, qkey_spec(b, prev) as u64) {
            acts[n - 1]
        } else {
            prev
        }
    }
}

/// The first action of `acts` whose estimate in the table is maximal,
/// in enumeration order, unseen pairs counting as 0.
pub fn best_from(q: &QTable, b: &Board, acts: &Vec<(usize, usize)>) -> (a: (usize, usize))
    requires
        acts@.len() >= 1,
        forall|t: int| 0 <= t < acts@.len() ==> (#[trigger] acts@[t]).0 < 3 && acts@[t].1 < 3,
    ensures
        a == best_rec(q@, b@, acts@, acts@.len() as int),
        acts@.contains(a),
{
    let mut best = acts[0];
    let k0 = qkey(b, best);
    let mut best_v = q.get_or(k0, 0);
    proof {
        assert(acts@[0] == best);
    }
    let mut t: usize = 1;
    while t < acts.len()
        invariant
            1 <= t <= acts@.len(),
            forall|u: int| 0 <= u < acts@.len() ==> (#[trigger] acts@[u]).0 < 3 && acts@[u].1 < 3,
            best == best_rec(q@, b@, acts@, t as int),
            acts@.contains(best),
            best_v == q_or0(q@, qkey_spec(b@, best) as u64),
        decreases acts@.len() - t,
    {
        let cand = acts[t];
        let k = qkey(b, cand);
        let v = q.get_or(k, 0);
        if v > best_v {
            best = cand;
            best_v = v;
            proof {
                assert(acts@[t as int] == best);
            }
        }
        t = t + 1;
    }
    best
}

} // verus!
