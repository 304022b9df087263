use tictactoe_q::board::Board;
use tictactoe_q::parse::parse_human_input;

fn all_cells() -> Vec<(usize, usize)> {
    Board::empty().get_unoccupied()
}

#[test]
fn parses_a_plain_pair() {
    let line = b"1 2".to_vec();
    assert_eq!(parse_human_input(&line, &all_cells()), Some((1, 2)));
}

#[test]
fn parses_with_extra_whitespace() {
    let line = b"  0 \t 2  \n".to_vec();
    assert_eq!(parse_human_input(&line, &all_cells()), Some((0, 2)));
}

#[test]
fn rejects_out_of_range_coordinates() {
    let line = b"5 5".to_vec();
    assert_eq!(parse_human_input(&line, &all_cells()), None);
}

#[test]
fn rejects_a_huge_number() {
    let line = b"123456789123456789123456789 1".to_vec();
    assert_eq!(parse_human_input(&line, &all_cells()), None);
}

#[test]
fn rejects_a_single_token() {
    let line = b"1".to_vec();
    assert_eq!(parse_human_input(&line, &all_cells()), None);
}

#[test]
fn rejects_three_tokens() {
    let line = b"1 2 0".to_vec();
    assert_eq!(parse_human_input(&line, &all_cells()), None);
}

#[test]
fn rejects_letters() {
    let line = b"a b".to_vec();
    assert_eq!(parse_human_input(&line, &all_cells()), None);
    let line2 = b"1a 2".to_vec();
    assert_eq!(parse_human_input(&line2, &all_cells()), None);
}

#[test]
fn rejects_an_empty_line() {
    let line = b"".to_vec();
    assert_eq!(parse_human_input(&line, &all_cells()), None);
    let blank = b"   \n".to_vec();
    assert_eq!(parse_human_input(&blank, &all_cells()), None);
}

#[test]
fn rejects_an_occupied_cell() {
    let possible: Vec<(usize, usize)> = vec![(0, 1), (2, 2)];
    let line = b"1 1".to_vec();
    assert_eq!(parse_human_input(&line, &possible), None);
    let line2 = b"2 2".to_vec();
    assert_eq!(parse_human_input(&line2, &possible), Some((2, 2)));
}

#[test]
fn accepts_leading_zeros() {
    let line = b"01 002".to_vec();
    assert_eq!(parse_human_input(&line, &all_cells()), Some((1, 2)));
}
