//! Writing a position in its notation.
use vstd::prelude::*;
use super::notation::{rights_text, row_text, row_text_from, target_text, turn_text};
use super::position::CastlingFlags;
use super::squarespec::SquareSpec;
use crate::piece::{Color, Piece};

verus! {

/// Appends the text of a rank: the letters of its pieces, each run of empty
/// squares as its length.
pub fn push_row(out: &mut Vec<char>, row: &[Option<Piece>; 8])
    ensures
        final(out)@ == old(out)@ + row_text(row@),
{
    let ghost start = out@;
    let mut empty_squares: u8 = 0;
    let mut i: usize = 0;
    assert(out@ + row_text_from(row@, 0, 0) == start + row_text(row@));
    while i < 8
        invariant
            i <= 8,
            empty_squares <= i,
            out@ + row_text_from(row@, i as int, empty_squares as int) == start + row_text(row@),
        decreases 8 - i,
    {
        let ghost before = out@;
        let ghost rest = row_text_from(row@, i as int, empty_squares as int);
        match row[i] {
            Some(piece) => {
                if empty_squares != 0 {
                    out.push((empty_squares + 48) as char);
                    empty_squares = 0;
                }
                out.push(piece.symbol_char());
                proof {
                    assert(out@ + row_text_from(row@, i + 1, 0) =~= before + rest);
                }
            },
            None => {
                empty_squares += 1;
            },
        }
        i += 1;
    }
    let ghost before = out@;
    if empty_squares != 0 {
        out.push((empty_squares + 48) as char);
    }
    proof {
        assert(out@ =~= before + row_text_from(row@, 8, empty_squares as int));
    }
}

/// Appends the letter of the side to move.
pub fn push_turn(out: &mut Vec<char>, turn: Color)
    ensures
        final(out)@ == old(out)@ + turn_text(turn),
{
    match turn {
        Color::White => out.push('w'),
        Color::Black => out.push('b'),
    }
    assert(out@ =~= old(out)@ + turn_text(turn));
}

/// Appends the letters of the castling rights that are held.
pub fn push_rights(out: &mut Vec<char>, rights: CastlingFlags)
    ensures
        final(out)@ == old(out)@ + rights_text(rights),
{
    if rights.white_short {
        out.push('K');
    }
    if rights.white_long {
        out.push('Q');
    }
    if rights.black_short {
        out.push('k');
    }
    if rights.black_long {
        out.push('q');
    }
    assert(out@ =~= old(out)@ + rights_text(rights));
}

/// Appends the name of the en-passant target, or `-`.
pub fn push_target(out: &mut Vec<char>, target: Option<SquareSpec>)
    ensures
        final(out)@ == old(out)@ + target_text(target),
{
    match target {
        Some(sq) => {
            sq.push_text(out);
        },
        None => {
            out.push('-');
            assert(out@ =~= old(out)@ + target_text(target));
        },
    }
}

} // verus!
