//! Parsing of a human move: a line naming two whitespace-separated
//! coordinates in 0..3, checked against the currently legal actions.
//! Anything malformed, out of range or naming an occupied cell is
//! rejected with `None`, never an error, so a caller can simply
//! re-prompt.

use vstd::prelude::*;

verus! {

/// Whether a byte is ASCII whitespace as the parser skips it.
pub open spec fn is_ws(c: u8) -> bool {
    c == 32 || c == 9 || c == 10 || c == 13
}

/// Whether a byte is an ASCII decimal digit.
pub open spec fn is_digit(c: u8) -> bool {
    48 <= c <= 57
}

/// The first position at or after `i` that does not hold whitespace.
pub open spec fn skip_ws(s: Seq<u8>, i: int) -> int
    decreases s.len() - i,
{
    if 0 <= i < s.len() && is_ws(s[i]) {
        skip_ws(s, i + 1)
    } else {
        i
    }
}

/// A decimal value saturated at 10: every value of 10 or more reads
/// the same, and no such value ever names a cell.
pub open spec fn sat10(x: int) -> int {
    if x > 9 {
        10
    } else {
        x
    }
}

/// The value (saturated at 10) and end position of the digit run
/// beginning at `i`, the accumulator `acc` already read.
pub open spec fn scan_num(s: Seq<u8>, i: int, acc: int) -> (int, int)
    decreases s.len() - i,
{
    if 0 <= i < s.len() && is_digit(s[i]) {
        scan_num(s, i + 1, sat10(acc * 10 + (s[i] - 48)))
    } else {
        (acc, i)
    }
}

/// The coordinate pair a line holds: exactly two whitespace-separated
/// digit runs, nothing else, their values saturated at 10.
pub open spec fn parse_pair_spec(s: Seq<u8>) -> Option<(int, int)> {
    let i0 = skip_ws(s, 0);
    if i0 < s.len() && is_digit(s[i0]) {
        let (x, i1) = scan_num(s, i0, 0);
        let i2 = skip_ws(s, i1);
        if i2 < s.len() && is_digit(s[i2]) && i2 > i1 {
            let (y, i3) = scan_num(s, i2, 0);
            if skip_ws(s, i3) == s.len() {
                Some((x, y))
            } else {
                None
            }
        } else {
            None
        }
    } else {
        None
    }
}

/// The action a human's line chooses: the coordinate pair the line
/// holds, provided it names one of the currently legal actions;
/// `None` for anything malformed, out of range or occupied.
pub open spec fn parse_human_input_spec(s: Seq<u8>, possible: Seq<(usize, usize)>) -> Option<
    (usize, usize),
> {
    match parse_pair_spec(s) {
        Some(p) => {
            let a = ((p.0 as usize), (p.1 as usize));
            if possible.contains(a) {
                Some(a)
            } else {
                None
            }
        },
        None => None,
    }
}

/// The first position at or after `i` that does not hold whitespace.
fn skip_ws_exec(line: &Vec<u8>, i: usize) -> (j: usize)
    requires
        i <= line@.len(),
    ensures
        j == skip_ws(line@, i as int),
        i <= j <= line@.len(),
{
    let mut j = i;
    while j < line.len() && is_ws_exec(line[j])
        invariant
            i <= j <= line@.len(),
            skip_ws(line@, i as int) == skip_ws(line@, j as int),
        decreases line@.len() - j,
    {
        j = j + 1;
    }
    j
}

/// Whether a byte is ASCII whitespace.
fn is_ws_exec(c: u8) -> (r: bool)
    ensures
        r == is_ws(c),
{
    c == 32 || c == 9 || c == 10 || c == 13
}

/// Whether a byte is an ASCII decimal digit.
fn is_digit_exec(c: u8) -> (r: bool)
    ensures
        r == is_digit(c),
{
    48 <= c && c <= 57
}

/// The value (saturated at 10) and end position of the digit run
/// beginning at `i`.
fn scan_num_exec(line: &Vec<u8>, i: usize) -> (r: (u32, usize))
    requires
        i <= line@.len(),
    ensures
        (r.0 as int, r.1 as int) == scan_num(line@, i as int, 0),
        i <= r.1 <= line@.len(),
        r.0 <= 10,
{
    let mut acc: u32 = 0;
    let mut j = i;
    while j < line.len() && is_digit_exec(line[j])
        invariant
            i <= j <= line@.len(),
            acc <= 10,
            scan_num(line@, i as int, 0) == scan_num(line@, j as int, acc as int),
        decreases line@.len() - j,
    {
        let d = (line[j] - 48) as u32;
        acc = if acc * 10 + d > 9 {
            10
        } else {
            acc * 10 + d
        };
        j = j + 1;
    }
    (acc, j)
}

/// Whether `a` is one of the listed actions.
fn contains_action(possible: &Vec<(usize, usize)>, a: (usize, usize)) -> (r: bool)
    ensures
        r == possible@.contains(a),
{
    let mut t: usize = 0;
    while t < possible.len()
        invariant
            t <= possible@.len(),
            forall|u: int| 0 <= u < t ==> possible@[u] != a,
        decreases possible@.len() - t,
    {
        if possible[t].0 == a.0 && possible[t].1 == a.1 {
            proof {
                assert(possible@[t as int] == a);
            }
            return true;
        }
        t = t + 1;
    }
    false
}

/// Parse a human's move from a line of input: two whitespace-separated
/// coordinates in 0..3, accepted only when they name one of the
/// currently legal actions. Malformed or illegal input yields `None`,
/// so the caller can re-prompt.
pub fn parse_human_input(line: &Vec<u8>, possible: &Vec<(usize, usize)>) -> (r: Option<
    (usize, usize),
>)
    ensures
        r == parse_human_input_spec(line@, possible@),
        r matches Some(a) ==> possible@.contains(a),
{
    let i0 = skip_ws_exec(line, 0);
    if i0 < line.len() && is_digit_exec(line[i0]) {
        let (x, i1) = scan_num_exec(line, i0);
        let i2 = skip_ws_exec(line, i1);
        if i2 < line.len() && is_digit_exec(line[i2]) && i2 > i1 {
            let (y, i3) = scan_num_exec(line, i2);
            let i4 = skip_ws_exec(line, i3);
            if i4 == line.len() {
                let a = (x as usize, y as usize);
                if contains_action(possible, a) {
                    Some(a)
                } else {
                    None
                }
            } else {
                None
            }
        } else {
            None
        }
    } else {
        None
    }
}

} // verus!
