//! The 3x3 tic-tac-toe board: cells, players, legal moves, win
//! detection and rendering, specified over a nine-cell sequence view
//! in row-major order.

use crate::rng::{lcg_next, lcg_output, Rng};
use vstd::prelude::*;
use vstd::string::StringExecFns;

verus! {

/// Two players, X and O. X always moves first.
#[derive(Clone, Copy, PartialEq, Eq, Structural, Debug, Hash)]
pub enum Player {
    X,
    O,
}

/// A square on the board, either occupied by a player or empty.
#[derive(Clone, Copy, PartialEq, Eq, Structural, Debug, Hash)]
pub enum Square {
    Occupied(Player),
    Empty,
}

impl Player {
    /// The player owning an occupied square.
    pub fn from_square(s: Square) -> (p: Player)
        requires
            s != Square::Empty,
        ensures
            s == Square::Occupied(p),
    {
        match s {
            Square::Occupied(p) => p,
            Square::Empty => Player::X,  // unreachable under the precondition
        }
    }
}

/// A 3x3 tic-tac-toe board, stored row-major.
#[derive(Clone, Copy, PartialEq, Eq, Debug, Hash)]
pub struct Board {
    cells: [Square; 9],
}

impl View for Board {
    type V = Seq<Square>;

    closed spec fn view(&self) -> Seq<Square> {
        self.cells@
    }
}

/// The row-major cell index of the coordinate pair (row, col).
pub open spec fn cell_index(row: int, col: int) -> int {
    row * 3 + col
}

/// The player owning all three of the cells `i`, `j`, `k`, if the
/// three agree and are occupied.
pub open spec fn triple_owner(b: Seq<Square>, i: int, j: int, k: int) -> Option<Player> {
    match b[i] {
        Square::Occupied(p) => if b[j] == b[i] && b[k] == b[i] {
            Some(p)
        } else {
            None
        },
        Square::Empty => None,
    }
}

/// The winner of a board: the owner of the first complete line, the
/// eight lines checked in a fixed order (the three rows top to bottom,
/// then the three columns left to right, then the main diagonal, then
/// the anti-diagonal), or `None` when no line is complete.
pub open spec fn winner_spec(b: Seq<Square>) -> Option<Player> {
    if triple_owner(b, 0, 1, 2) is Some {
        triple_owner(b, 0, 1, 2)
    } else if triple_owner(b, 3, 4, 5) is Some {
        triple_owner(b, 3, 4, 5)
    } else if triple_owner(b, 6, 7, 8) is Some {
        triple_owner(b, 6, 7, 8)
    } else if triple_owner(b, 0, 3, 6) is Some {
        triple_owner(b, 0, 3, 6)
    } else if triple_owner(b, 1, 4, 7) is Some {
        triple_owner(b, 1, 4, 7)
    } else if triple_owner(b, 2, 5, 8) is Some {
        triple_owner(b, 2, 5, 8)
    } else if triple_owner(b, 0, 4, 8) is Some {
        triple_owner(b, 0, 4, 8)
    } else if triple_owner(b, 2, 4, 6) is Some {
        triple_owner(b, 2, 4, 6)
    } else {
        None
    }
}

/// Whether `p` owns all three of the cells `i`, `j`, `k`.
pub open spec fn owns_line(b: Seq<Square>, p: Player, i: int, j: int, k: int) -> bool {
    b[i] == Square::Occupied(p) && b[j] == Square::Occupied(p) && b[k] == Square::Occupied(p)
}

/// Whether `p` owns a complete line: a row, a column or a diagonal.
pub open spec fn has_line(b: Seq<Square>, p: Player) -> bool {
    ||| owns_line(b, p, 0, 1, 2)
    ||| owns_line(b, p, 3, 4, 5)
    ||| owns_line(b, p, 6, 7, 8)
    ||| owns_line(b, p, 0, 3, 6)
    ||| owns_line(b, p, 1, 4, 7)
    ||| owns_line(b, p, 2, 5, 8)
    ||| owns_line(b, p, 0, 4, 8)
    ||| owns_line(b, p, 2, 4, 6)
}

/// The winner of a board is never ambiguous and never invented: the
/// detector reports a player exactly when that player owns a complete
/// line, and it reports `None` exactly when neither player owns one.
/// When both players somehow own lines, the fixed checking order still
/// makes the answer a single deterministic choice.
pub proof fn lemma_winner_characterization(b: Seq<Square>)
    ensures
        winner_spec(b) is None <==> (!has_line(b, Player::X) && !has_line(b, Player::O)),
        winner_spec(b) == Some(Player::X) ==> has_line(b, Player::X),
        winner_spec(b) == Some(Player::O) ==> has_line(b, Player::O),
{
}

/// The unoccupied coordinates among the first `n` cells, row-major.
pub open spec fn unoccupied_upto(b: Seq<Square>, n: int) -> Seq<(usize, usize)>
    decreases n,
{
    if n <= 0 {
        Seq::empty()
    } else if b[n - 1] == Square::Empty {
        unoccupied_upto(b, n - 1) + seq![((((n - 1) / 3) as usize), (((n - 1) % 3) as usize))]
    } else {
        unoccupied_upto(b, n - 1)
    }
}

/// The unoccupied coordinates of a board, in row-major order.
pub open spec fn unoccupied_spec(b: Seq<Square>) -> Seq<(usize, usize)> {
    unoccupied_upto(b, 9)
}

/// How many of the first `n` cells are occupied.
pub open spec fn occupied_upto(b: Seq<Square>, n: int) -> int
    decreases n,
{
    if n <= 0 {
        0
    } else if b[n - 1] is Occupied {
        occupied_upto(b, n - 1) + 1
    } else {
        occupied_upto(b, n - 1)
    }
}

/// How many cells of a board are occupied.
pub open spec fn occupied_cell_count(b: Seq<Square>) -> int {
    occupied_upto(b, 9)
}

/// Unoccupied and occupied cells partition the first `n` cells: the
/// count of legal actions plus the count of occupied cells is `n`.
proof fn lemma_actions_complement_upto(b: Seq<Square>, n: int)
    requires
        0 <= n,
    ensures
        unoccupied_upto(b, n).len() + occupied_upto(b, n) == n,
        0 <= occupied_upto(b, n) <= n,
    decreases n,
{
    if n > 0 {
        lemma_actions_complement_upto(b, n - 1);
    }
}

/// Every board's legal actions and occupied cells account for all nine
/// cells: `unoccupied_spec(b).len() + occupied_cell_count(b) == 9`.
pub proof fn lemma_actions_complement(b: Seq<Square>)
    ensures
        unoccupied_spec(b).len() + occupied_cell_count(b) == 9,
        0 <= occupied_cell_count(b) <= 9,
        unoccupied_spec(b).len() <= 9,
{
    lemma_actions_complement_upto(b, 9);
}

/// How many of the first `n` cells player `p` owns.
pub open spec fn count_upto(b: Seq<Square>, p: Player, n: int) -> int
    decreases n,
{
    if n <= 0 {
        0
    } else if b[n - 1] == Square::Occupied(p) {
        count_upto(b, p, n - 1) + 1
    } else {
        count_upto(b, p, n - 1)
    }
}

/// How many cells of a board player `p` owns.
pub open spec fn count_player(b: Seq<Square>, p: Player) -> int {
    count_upto(b, p, 9)
}

/// A board of empty cells has no pieces.
proof fn lemma_count_empty_cells(b: Seq<Square>, p: Player, n: int)
    requires
        forall|c: int| 0 <= c < n ==> b[c] == Square::Empty,
    ensures
        count_upto(b, p, n) == 0,
    decreases n,
{
    if n > 0 {
        lemma_count_empty_cells(b, p, n - 1);
    }
}

/// Occupying an empty cell adds one piece for its owner and none for
/// the other player.
proof fn lemma_count_update(b: Seq<Square>, c: int, p: Player, n: int)
    requires
        0 <= c < n <= b.len(),
        b[c] == Square::Empty,
    ensures
        count_upto(b.update(c, Square::Occupied(p)), p, n) == count_upto(b, p, n) + 1,
        forall|q: Player|
            q != p ==> count_upto(b.update(c, Square::Occupied(p)), q, n) == count_upto(b, q, n),
    decreases n,
{
    let b2 = b.update(c, Square::Occupied(p));
    if c == n - 1 {
        lemma_count_update_below(b, c, p, n - 1);
        assert(b2[n - 1] == Square::Occupied(p));
        assert(count_upto(b2, p, n) == count_upto(b2, p, n - 1) + 1);
        assert(count_upto(b, p, n) == count_upto(b, p, n - 1));
        assert forall|q: Player| q != p implies count_upto(b2, q, n) == count_upto(b, q, n) by {
            assert(b2[n - 1] != Square::Occupied(q));
            assert(count_upto(b2, q, n) == count_upto(b2, q, n - 1));
            assert(count_upto(b, q, n) == count_upto(b, q, n - 1));
        }
    } else {
        lemma_count_update(b, c, p, n - 1);
        assert(b2[n - 1] == b[n - 1]);
        assert(count_upto(b2, p, n) == count_upto(b, p, n) + 1);
        assert forall|q: Player| q != p implies count_upto(b2, q, n) == count_upto(b, q, n) by {
            assert(count_upto(b2, q, n - 1) == count_upto(b, q, n - 1));
        }
    }
}

/// Updating a cell at or above `n` leaves the counts of the first `n`
/// cells alone.
proof fn lemma_count_update_below(b: Seq<Square>, c: int, p: Player, n: int)
    requires
        n <= c,
        0 <= c < b.len(),
    ensures
        forall|q: Player|
            count_upto(b.update(c, Square::Occupied(p)), q, n) == count_upto(b, q, n),
    decreases n,
{
    if n > 0 {
        lemma_count_update_below(b, c, p, n - 1);
        assert forall|q: Player|
            count_upto(b.update(c, Square::Occupied(p)), q, n) == count_upto(b, q, n) by {
            assert(b.update(c, Square::Occupied(p))[n - 1] == b[n - 1]);
            assert(count_upto(b.update(c, Square::Occupied(p)), q, n - 1) == count_upto(
                b,
                q,
                n - 1,
            ));
        }
    }
}

/// Cells at positions the placement never names keep their contents.
proof fn lemma_place_rec_untouched(b: Seq<Square>, pos: Seq<usize>, t: int, c: int)
    requires
        t <= pos.len(),
        forall|u: int| 0 <= u < t ==> #[trigger] pos[u] < b.len(),
        forall|u: int| 0 <= u < t ==> #[trigger] pos[u] != c,
        0 <= c < b.len(),
    ensures
        place_rec(b, pos, t)[c] == b[c],
    decreases t,
{
    if t > 0 {
        lemma_place_rec_untouched(b, pos, t - 1, c);
        lemma_place_rec_len(b, pos, t - 1);
    }
}

/// Placement does not change the length of the board.
proof fn lemma_place_rec_len(b: Seq<Square>, pos: Seq<usize>, t: int)
    requires
        t <= pos.len(),
        forall|u: int| 0 <= u < t ==> #[trigger] pos[u] < b.len(),
    ensures
        place_rec(b, pos, t).len() == b.len(),
    decreases t,
{
    if t > 0 {
        lemma_place_rec_len(b, pos, t - 1);
    }
}

/// Placing `t` pieces on an empty board by alternating X and O over
/// distinct positions leaves X with the even-turn half of them and O
/// with the odd-turn half.
proof fn lemma_place_counts(b: Seq<Square>, pos: Seq<usize>, t: int)
    requires
        b.len() == 9,
        forall|c: int| 0 <= c < 9 ==> b[c] == Square::Empty,
        pos.len() == 9,
        pos.no_duplicates(),
        forall|u: int| 0 <= u < 9 ==> pos[u] < 9,
        0 <= t <= 9,
    ensures
        count_upto(place_rec(b, pos, t), Player::X, 9) == (t + 1) / 2,
        count_upto(place_rec(b, pos, t), Player::O, 9) == t / 2,
    decreases t,
{
    if t == 0 {
        lemma_count_empty_cells(b, Player::X, 9);
        lemma_count_empty_cells(b, Player::O, 9);
    } else {
        lemma_place_counts(b, pos, t - 1);
        let prev = place_rec(b, pos, t - 1);
        let c = pos[t - 1] as int;
        assert(forall|u: int| 0 <= u < t - 1 ==> #[trigger] pos[u] != pos[t - 1]);
        lemma_place_rec_untouched(b, pos, t - 1, c);
        lemma_place_rec_len(b, pos, t - 1);
        if (t - 1) % 2 == 0 {
            lemma_count_update(prev, c, Player::X, 9);
        } else {
            lemma_count_update(prev, c, Player::O, 9);
        }
    }
}

/// A Fisher-Yates pass keeps the cell indices a permutation: nine
/// distinct values below nine.
proof fn lemma_shuffle_props(v: Seq<usize>, s: u64, i: int)
    requires
        v.len() == 9,
        v.no_duplicates(),
        forall|t: int| 0 <= t < 9 ==> v[t] < 9,
        0 <= i < 9,
    ensures
        shuffle_rec(v, s, i).0.len() == 9,
        shuffle_rec(v, s, i).0.no_duplicates(),
        forall|t: int| 0 <= t < 9 ==> shuffle_rec(v, s, i).0[t] < 9,
    decreases i,
{
    if i > 0 {
        let s2 = lcg_next(s);
        let j = (lcg_output(s2) % ((i + 1) as u64)) as int;
        let v2 = v.update(i, v[j]).update(j, v[i]);
        if j == i {
            assert(v2 =~= v);
        } else {
            assert forall|p: int, q: int|
                0 <= p < 9 && 0 <= q < 9 && p != q implies v2[p] != v2[q] by {
                assert(v2[p] == if p == j {
                    v[i]
                } else if p == i {
                    v[j]
                } else {
                    v[p]
                });
                assert(v2[q] == if q == j {
                    v[i]
                } else if q == i {
                    v[j]
                } else {
                    v[q]
                });
            }
        }
        lemma_shuffle_props(v2, s2, i - 1);
    }
}

/// Occupied cells are exactly the pieces of the two players together.
proof fn lemma_occupied_is_both_counts(b: Seq<Square>, n: int)
    ensures
        occupied_upto(b, n) == count_upto(b, Player::X, n) + count_upto(b, Player::O, n),
    decreases n,
{
    if n > 0 {
        lemma_occupied_is_both_counts(b, n - 1);
    }
}

/// A randomly drawn board is balanced: X and O placed the same number
/// of pieces, at most eight cells are occupied, and the board has
/// nine cells.
proof fn lemma_random_board_balanced(s: u64)
    ensures
        ({
            let (b, s2) = random_board_spec(s);
            &&& b.len() == 9
            &&& count_player(b, Player::X) == count_player(b, Player::O)
            &&& occupied_cell_count(b) <= 8
        }),
{
    let e = Seq::new(9, |i: int| Square::Empty);
    let s1 = lcg_next(s);
    let k = lcg_output(s1) % 5;
    let pos = shuffle_rec(init_positions(), s1, 8).0;
    assert(init_positions().no_duplicates());
    assert(forall|t: int| 0 <= t < 9 ==> init_positions()[t] < 9);
    lemma_shuffle_props(init_positions(), s1, 8);
    lemma_place_rec_len(e, pos, 2 * k as int);
    lemma_place_counts(e, pos, 2 * k as int);
    lemma_occupied_is_both_counts(random_board_spec(s).0, 9);
}

/// Every board the rejection sampler can yield is balanced: X and O
/// hold the same number of pieces, so X is next to move, and at least
/// one cell is free.
proof fn lemma_sample_balanced(s: u64, fuel: nat)
    ensures
        ({
            let (b, s2) = sample_rec(s, fuel);
            &&& b.len() == 9
            &&& count_player(b, Player::X) == count_player(b, Player::O)
            &&& occupied_cell_count(b) <= 8
        }),
    decreases fuel,
{
    if fuel == 0 {
        let e = Seq::new(9, |i: int| Square::Empty);
        lemma_count_empty_cells(e, Player::X, 9);
        lemma_count_empty_cells(e, Player::O, 9);
        lemma_occupied_is_both_counts(e, 9);
    } else {
        lemma_random_board_balanced(s);
        lemma_sample_balanced(random_board_spec(s).1, (fuel - 1) as nat);
    }
}

/// The character a square renders as.
pub open spec fn char_of(s: Square) -> char {
    match s {
        Square::Occupied(Player::X) => 'X',
        Square::Occupied(Player::O) => 'O',
        Square::Empty => '.',
    }
}

/// The textual rendering of a board: three rows of three characters,
/// each row terminated by a newline.
pub open spec fn render_spec(b: Seq<Square>) -> Seq<char> {
    seq![
        char_of(b[0]), char_of(b[1]), char_of(b[2]), '\n',
        char_of(b[3]), char_of(b[4]), char_of(b[5]), '\n',
        char_of(b[6]), char_of(b[7]), char_of(b[8]), '\n',
    ]
}

impl Board {
    /// Return an empty board.
    pub fn empty() -> (b: Board)
        ensures
            b@.len() == 9,
            forall|i: int| 0 <= i < 9 ==> b@[i] == Square::Empty,
    {
        Board { cells: [Square::Empty; 9] }
    }

    /// The square at (row, col).
    pub fn get(&self, row: usize, col: usize) -> (s: Square)
        requires
            row < 3,
            col < 3,
        ensures
            s == self@[cell_index(row as int, col as int)],
    {
        self.cells[row * 3 + col]
    }

    /// Place `player` on the cell named by `action`, provided that cell
    /// is empty. An occupied target cell fails the move and leaves the
    /// board unchanged.
    pub fn apply(&mut self, action: (usize, usize), player: Player) -> (ok: bool)
        requires
            action.0 < 3,
            action.1 < 3,
        ensures
            old(self)@[cell_index(action.0 as int, action.1 as int)] == Square::Empty ==> {
                &&& ok
                &&& final(self)@ == old(self)@.update(
                    cell_index(action.0 as int, action.1 as int),
                    Square::Occupied(player),
                )
            },
            old(self)@[cell_index(action.0 as int, action.1 as int)] != Square::Empty ==> {
                &&& !ok
                &&& final(self)@ == old(self)@
            },
    {
        let i = action.0 * 3 + action.1;
        match self.cells[i] {
            Square::Empty => {
                self.cells[i] = Square::Occupied(player);
                true
            },
            Square::Occupied(_) => {
                proof {
                    assert(self@ =~= old(self)@);
                }
                false
            },
        }
    }

    /// The square at the row-major cell index `i`.
    fn cell_at(&self, i: usize) -> (s: Square)
        requires
            i < 9,
        ensures
            s == self@[i as int],
    {
        self.cells[i]
    }

    /// The owner of the line through cells `i`, `j`, `k`, if complete.
    fn check_line(&self, i: usize, j: usize, k: usize) -> (w: Option<Player>)
        requires
            i < 9,
            j < 9,
            k < 9,
        ensures
            w == triple_owner(self@, i as int, j as int, k as int),
    {
        match self.cell_at(i) {
            Square::Occupied(p) => {
                if self.cell_at(j) == self.cell_at(i) && self.cell_at(k) == self.cell_at(i) {
                    Some(p)
                } else {
                    None
                }
            },
            Square::Empty => None,
        }
    }

    /// Return the winning player, if there is one: the owner of the
    /// first complete line, rows checked before columns before the two
    /// diagonals.
    pub fn get_winner(&self) -> (w: Option<Player>)
        ensures
            w == winner_spec(self@),
    {
        if let Some(p) = self.check_line(0, 1, 2) {
            return Some(p);
        }
        if let Some(p) = self.check_line(3, 4, 5) {
            return Some(p);
        }
        if let Some(p) = self.check_line(6, 7, 8) {
            return Some(p);
        }
        if let Some(p) = self.check_line(0, 3, 6) {
            return Some(p);
        }
        if let Some(p) = self.check_line(1, 4, 7) {
            return Some(p);
        }
        if let Some(p) = self.check_line(2, 5, 8) {
            return Some(p);
        }
        if let Some(p) = self.check_line(0, 4, 8) {
            return Some(p);
        }
        if let Some(p) = self.check_line(2, 4, 6) {
            return Some(p);
        }
        None
    }

    /// Returns the unoccupied coordinates of the board, in row-major
    /// order. Together with the occupied cells they account for all
    /// nine cells.
    pub fn get_unoccupied(&self) -> (v: Vec<(usize, usize)>)
        ensures
            v@ == unoccupied_spec(self@),
            v@.len() + occupied_cell_count(self@) == 9,
            v@.len() <= 9,
            forall|t: int| 0 <= t < v@.len() ==> v@[t].0 < 3 && v@[t].1 < 3,
            forall|t: int|
                0 <= t < v@.len() ==> self@[cell_index(
                    (#[trigger] v@[t]).0 as int,
                    v@[t].1 as int,
                )] == Square::Empty,
    {
        let mut v: Vec<(usize, usize)> = Vec::new();
        let mut i: usize = 0;
        while i < 9
            invariant
                i <= 9,
                v@ == unoccupied_upto(self@, i as int),
                forall|t: int| 0 <= t < v@.len() ==> v@[t].0 < 3 && v@[t].1 < 3,
                forall|t: int|
                    0 <= t < v@.len() ==> self@[cell_index(
                        (#[trigger] v@[t]).0 as int,
                        v@[t].1 as int,
                    )] == Square::Empty,
            decreases 9 - i,
        {
            if self.cell_at(i) == Square::Empty {
                v.push((i / 3, i % 3));
            }
            i = i + 1;
        }
        proof {
            lemma_actions_complement(self@);
        }
        v
    }

    /// Render the board as three newline-terminated rows of three
    /// characters, `X` and `O` for occupied cells and `.` for empty
    /// ones.
    pub fn render(&self) -> (out: String)
        ensures
            out@ == render_spec(self@),
    {
        let mut out = String::new();
        let mut i: usize = 0;
        while i < 9
            invariant
                i <= 9,
                i % 3 == 0,
                out@ == render_spec(self@).take(i as int + i as int / 3),
            decreases 9 - i,
        {
            push_square(&mut out, self.cell_at(i));
            push_square(&mut out, self.cell_at(i + 1));
            push_square(&mut out, self.cell_at(i + 2));
            out.append("\n");
            proof {
                reveal_strlit("\n");
                assert(out@ =~= render_spec(self@).take((i + 3) as int + (i + 3) as int / 3));
            }
            i = i + 3;
        }
        proof {
            assert(out@ =~= render_spec(self@));
        }
        out
    }
}

/// How many boards a sampling call will draw before it falls back to
/// the empty board; a draw is rejected while it has a winner. Each
/// draw is rejected with probability well below one half, so the
/// fallback is never reached in practice, but the bound makes the
/// sampler a total function of the generator state.
pub const SAMPLE_ATTEMPTS: usize = 500;

/// The nine cell indices in row-major order, the state the shuffle
/// starts from.
pub open spec fn init_positions() -> Seq<usize> {
    seq![0usize, 1usize, 2usize, 3usize, 4usize, 5usize, 6usize, 7usize, 8usize]
}

/// A Fisher-Yates shuffle of `v` driven by the generator state `s`,
/// swapping positions `i` down to 1 each with a draw below `i + 1`.
pub open spec fn shuffle_rec(v: Seq<usize>, s: u64, i: int) -> (Seq<usize>, u64)
    decreases i,
{
    if i <= 0 {
        (v, s)
    } else {
        let s2 = lcg_next(s);
        let j = (lcg_output(s2) % ((i + 1) as u64)) as int;
        let v2 = v.update(i, v[j]).update(j, v[i]);
        shuffle_rec(v2, s2, i - 1)
    }
}

/// The board after the first `t` of the positions `pos` are filled in
/// turn order: X on even turns, O on odd turns.
pub open spec fn place_rec(b: Seq<Square>, pos: Seq<usize>, t: int) -> Seq<Square>
    decreases t,
{
    if t <= 0 {
        b
    } else {
        place_rec(b, pos, t - 1).update(
            pos[t - 1] as int,
            Square::Occupied(if (t - 1) % 2 == 0 {
                Player::X
            } else {
                Player::O
            }),
        )
    }
}

/// One random board draw from the generator state `s`: an even number
/// of pieces (0 to 8) placed by alternating X and O on a random
/// permutation of the cells. Yields the board and the following state.
pub open spec fn random_board_spec(s: u64) -> (Seq<Square>, u64) {
    let s1 = lcg_next(s);
    let k = lcg_output(s1) % 5;
    let (pos, s2) = shuffle_rec(init_positions(), s1, 8);
    (place_rec(Seq::new(9, |i: int| Square::Empty), pos, 2 * k as int), s2)
}

/// Up to `fuel` random board draws from the state `s`, rejecting each
/// board that already has a winner; the empty board when the fuel runs
/// out. Yields the board and the following state.
pub open spec fn sample_rec(s: u64, fuel: nat) -> (Seq<Square>, u64)
    decreases fuel,
{
    if fuel == 0 {
        (Seq::new(9, |i: int| Square::Empty), s)
    } else {
        let (b, s2) = random_board_spec(s);
        if winner_spec(b) is Some {
            sample_rec(s2, (fuel - 1) as nat)
        } else {
            (b, s2)
        }
    }
}

/// The start-state a generator state `s` samples: rejection sampling
/// with the fixed attempt bound.
pub open spec fn sample_spec(s: u64) -> (Seq<Square>, u64) {
    sample_rec(s, SAMPLE_ATTEMPTS as nat)
}

impl Board {
    /// One random board draw: an even number of pieces (0, 2, ..., 8)
    /// placed by alternating X and O on a random permutation of the
    /// cells. The board may already have a winner.
    fn random_board_with(rng: &mut Rng) -> (b: Board)
        ensures
            (b@, final(rng)@) == random_board_spec(old(rng)@),
    {
        let k = rng.next_below(5);
        let num_pieces: usize = 2 * (k as usize);
        let mut pos: [usize; 9] = [0, 1, 2, 3, 4, 5, 6, 7, 8];
        proof {
            assert(pos@ =~= init_positions());
        }
        let ghost s1 = rng@;
        let mut i: usize = 8;
        while i >= 1
            invariant
                i <= 8,
                pos@.len() == 9,
                forall|t: int| 0 <= t < 9 ==> pos@[t] < 9,
                shuffle_rec(init_positions(), s1, 8) == shuffle_rec(pos@, rng@, i as int),
            decreases i,
        {
            let ghost pos_before = pos@;
            let ghost s_before = rng@;
            let j = rng.next_below((i + 1) as u64) as usize;
            let pi = pos[i];
            let pj = pos[j];
            pos[i] = pj;
            pos[j] = pi;
            proof {
                assert(pos@ =~= pos_before.update(i as int, pos_before[j as int]).update(
                    j as int,
                    pos_before[i as int],
                ));
                assert(shuffle_rec(pos_before, s_before, i as int) == shuffle_rec(
                    pos@,
                    rng@,
                    i as int - 1,
                ));
            }
            i = i - 1;
        }
        let ghost shuffled = shuffle_rec(init_positions(), s1, 8);
        proof {
            assert(shuffled == (pos@, rng@));
        }
        let mut b = Board::empty();
        proof {
            assert(b@ =~= Seq::new(9, |x: int| Square::Empty));
        }
        let mut t: usize = 0;
        while t < num_pieces
            invariant
                t <= num_pieces <= 8,
                pos@ == shuffled.0,
                pos@.len() == 9,
                forall|u: int| 0 <= u < 9 ==> pos@[u] < 9,
                b@ == place_rec(Seq::new(9, |x: int| Square::Empty), pos@, t as int),
            decreases num_pieces - t,
        {
            let target = pos[t];
            let player = if t % 2 == 0 {
                Player::X
            } else {
                Player::O
            };
            b.cells[target] = Square::Occupied(player);
            t = t + 1;
        }
        b
    }

    /// Sample a random board where X is about to move and nobody has
    /// won yet: random boards are drawn and the ones that already have
    /// a winner rejected, falling back to the empty board after the
    /// fixed attempt bound. X is next to move because the two players
    /// hold equally many pieces; the result and the final generator
    /// state are an exact function of the starting generator state.
    pub fn random_nonterminal_x_board_with(rng: &mut Rng) -> (b: Board)
        ensures
            (b@, final(rng)@) == sample_spec(old(rng)@),
            winner_spec(b@) is None,
            count_player(b@, Player::X) == count_player(b@, Player::O),
            occupied_cell_count(b@) <= 8,
    {
        proof {
            lemma_sample_balanced(rng@, SAMPLE_ATTEMPTS as nat);
        }
        Board::sample_attempts(rng, SAMPLE_ATTEMPTS)
    }

    /// Up to `fuel` rejection-sampling attempts; the empty board when
    /// the fuel runs out.
    fn sample_attempts(rng: &mut Rng, fuel: usize) -> (b: Board)
        ensures
            (b@, final(rng)@) == sample_rec(old(rng)@, fuel as nat),
            winner_spec(b@) is None,
        decreases fuel,
    {
        if fuel == 0 {
            let b = Board::empty();
            proof {
                assert(b@ =~= Seq::new(9, |i: int| Square::Empty));
                assert(winner_spec(b@) is None);
            }
            b
        } else {
            let b = Board::random_board_with(rng);
            if b.get_winner().is_some() {
                Board::sample_attempts(rng, fuel - 1)
            } else {
                b
            }
        }
    }

    /// Return a random board where X is about to move and nobody has
    /// won yet, drawn from a generator seeded with fresh entropy.
    pub fn random_nonterminal_x_board() -> (b: Board)
        ensures
            winner_spec(b@) is None,
            count_player(b@, Player::X) == count_player(b@, Player::O),
            occupied_cell_count(b@) <= 8,
    {
        let mut rng = Rng::seed(entropy_u64());
        Board::random_nonterminal_x_board_with(&mut rng)
    }
}

/// Relies on rand::random::<u64>, a draw from the thread-local
/// generator, to seed sampling with fresh entropy. Nothing is promised
/// of the value.
#[verifier::external_body]
fn entropy_u64() -> u64 {
    rand::random::<u64>()
}

/// Append the one rendering character of a square to a string.
fn push_square(out: &mut String, s: Square)
    ensures
        final(out)@ == old(out)@ + seq![char_of(s)],
{
    match s {
        Square::Occupied(Player::X) => {
            out.append("X");
            proof {
                reveal_strlit("X");
                assert(out@ =~= old(out)@ + seq![char_of(s)]);
            }
        },
        Square::Occupied(Player::O) => {
            out.append("O");
            proof {
                reveal_strlit("O");
                assert(out@ =~= old(out)@ + seq![char_of(s)]);
            }
        },
        Square::Empty => {
            out.append(".");
            proof {
                reveal_strlit(".");
                assert(out@ =~= old(out)@ + seq![char_of(s)]);
            }
        },
    }
}

} // verus!
