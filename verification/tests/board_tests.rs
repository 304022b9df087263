use tictactoe_q::board::{Board, Player, Square};

fn place(b: &mut Board, r: usize, c: usize, p: Player) {
    let ok = b.apply((r, c), p);
    assert!(ok);
}

#[test]
fn render_of_empty_board() {
    assert_eq!(Board::empty().render(), "...\n...\n...\n");
}

#[test]
fn render_shows_players() {
    let mut b = Board::empty();
    place(&mut b, 0, 0, Player::X);
    place(&mut b, 1, 1, Player::O);
    place(&mut b, 2, 2, Player::X);
    assert_eq!(b.render(), "X..\n.O.\n..X\n");
}

#[test]
fn main_diagonal_of_x_wins() {
    let mut b = Board::empty();
    place(&mut b, 0, 0, Player::X);
    place(&mut b, 1, 1, Player::X);
    place(&mut b, 2, 2, Player::X);
    assert_eq!(b.get_winner(), Some(Player::X));
}

#[test]
fn full_board_without_line_is_a_draw() {
    // X O X / O X O / O X O
    let mut b = Board::empty();
    place(&mut b, 0, 0, Player::X);
    place(&mut b, 0, 1, Player::O);
    place(&mut b, 0, 2, Player::X);
    place(&mut b, 1, 0, Player::O);
    place(&mut b, 1, 1, Player::X);
    place(&mut b, 1, 2, Player::O);
    place(&mut b, 2, 0, Player::O);
    place(&mut b, 2, 1, Player::X);
    place(&mut b, 2, 2, Player::O);
    assert_eq!(b.get_winner(), None);
    assert!(b.get_unoccupied().is_empty());
}

#[test]
fn apply_on_occupied_cell_fails_and_changes_nothing() {
    let mut b = Board::empty();
    place(&mut b, 1, 1, Player::X);
    let before = b;
    let ok = b.apply((1, 1), Player::O);
    assert!(!ok);
    assert_eq!(b, before);
    assert_eq!(b.get(1, 1), Square::Occupied(Player::X));
}

#[test]
fn winner_checks_rows_before_columns() {
    // Both players hold a complete row; the earlier row decides.
    let mut b = Board::empty();
    place(&mut b, 0, 0, Player::X);
    place(&mut b, 0, 1, Player::X);
    place(&mut b, 0, 2, Player::X);
    place(&mut b, 1, 0, Player::O);
    place(&mut b, 1, 1, Player::O);
    place(&mut b, 1, 2, Player::O);
    assert_eq!(b.get_winner(), Some(Player::X));
}

#[test]
fn winner_checks_columns_left_to_right() {
    // O . X / O . X / O . X: both columns are complete, the left one
    // is checked first.
    let mut b = Board::empty();
    place(&mut b, 0, 0, Player::O);
    place(&mut b, 1, 0, Player::O);
    place(&mut b, 2, 0, Player::O);
    place(&mut b, 0, 2, Player::X);
    place(&mut b, 1, 2, Player::X);
    place(&mut b, 2, 2, Player::X);
    assert_eq!(b.get_winner(), Some(Player::O));
}

#[test]
fn anti_diagonal_of_o_wins() {
    let mut b = Board::empty();
    place(&mut b, 0, 2, Player::O);
    place(&mut b, 1, 1, Player::O);
    place(&mut b, 2, 0, Player::O);
    assert_eq!(b.get_winner(), Some(Player::O));
}

#[test]
fn unoccupied_is_row_major_and_complete() {
    let b = Board::empty();
    let acts = b.get_unoccupied();
    let expected: Vec<(usize, usize)> = vec![
        (0, 0),
        (0, 1),
        (0, 2),
        (1, 0),
        (1, 1),
        (1, 2),
        (2, 0),
        (2, 1),
        (2, 2),
    ];
    assert_eq!(acts, expected);
}

#[test]
fn unoccupied_count_complements_occupied_count() {
    let mut b = Board::empty();
    assert_eq!(b.get_unoccupied().len(), 9);
    place(&mut b, 0, 0, Player::X);
    assert_eq!(b.get_unoccupied().len(), 8);
    place(&mut b, 2, 1, Player::O);
    assert_eq!(b.get_unoccupied().len(), 7);
    assert!(!b.get_unoccupied().contains(&(0, 0)));
    assert!(!b.get_unoccupied().contains(&(2, 1)));
}

#[test]
fn sampled_board_is_never_terminal() {
    for _ in 0..50 {
        let b = Board::random_nonterminal_x_board();
        assert_eq!(b.get_winner(), None);
    }
}

#[test]
fn from_square_returns_the_owner() {
    assert_eq!(
        Player::from_square(Square::Occupied(Player::X)),
        Player::X
    );
    assert_eq!(
        Player::from_square(Square::Occupied(Player::O)),
        Player::O
    );
}
