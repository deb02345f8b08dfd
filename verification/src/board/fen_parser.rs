//! Reading a position from its notation.
use vstd::prelude::*;
use super::notation::{
    blanks, lemma_split_nonempty, placement, placement_symbol, position_of, rank_of, row_cells,
    split, turn_of, PieceResult,
};
use super::position::CastlingFlags;
use super::squarespec::SquareSpec;
use super::Board;
use crate::error::Error;
use crate::piece::{Color, Piece, PieceType};
use crate::text::{chars_of, parse_u32, string_of};

verus! {

/// The texts that the vectors hold.
pub open spec fn texts(parts: Seq<Vec<char>>) -> Seq<Seq<char>> {
    Seq::new(parts.len(), |i: int| parts[i]@)
}

/// The grid that the rows hold.
pub open spec fn grid_of(rows: [[Option<Piece>; 8]; 8]) -> Seq<Seq<Option<Piece>>> {
    Seq::new(8, |r: int| rows[r]@)
}

/// Divides the characters at each separator.
pub fn split_chars(chars: &Vec<char>, sep: char) -> (parts: Vec<Vec<char>>)
    ensures
        texts(parts@) == split(chars@, sep),
{
    let mut parts: Vec<Vec<char>> = Vec::new();
    let mut cur: Vec<char> = Vec::new();
    let mut i: usize = 0;
    while i < chars.len()
        invariant
            i <= chars.len(),
            texts(parts@).push(cur@) == split(chars@.take(i as int), sep),
        decreases chars.len() - i,
    {
        let c = chars[i];
        let ghost before = split(chars@.take(i as int), sep);
        let ghost held = texts(parts@);
        let ghost part = cur@;
        proof {
            let longer = chars@.take(i + 1);
            assert(longer.drop_last() == chars@.take(i as int));
            assert(longer.last() == c);
        }
        if c == sep {
            parts.push(cur);
            cur = Vec::new();
            proof {
                assert(texts(parts@) =~= held.push(part));
                assert(texts(parts@).push(cur@) =~= before.push(Seq::<char>::empty()));
            }
        } else {
            cur.push(c);
            proof {
                assert(texts(parts@).push(cur@) =~= before.update(
                    before.len() - 1,
                    before.last().push(c),
                ));
            }
        }
        i += 1;
    }
    proof {
        assert(chars@.take(i as int) == chars@);
    }
    let ghost held = texts(parts@);
    let ghost part = cur@;
    parts.push(cur);
    proof {
        assert(texts(parts@) =~= held.push(part));
    }
    parts
}

/// What a character of a rank's text stands for: a digit from 1 to 8 for
/// that many empty squares, a piece letter for its piece.
pub fn parse_piece(c: char) -> (r: Option<PieceResult>)
    ensures
        r == placement_symbol(c),
{
    if c >= '1' && c <= '8' {
        return Some(PieceResult::Empty(c as u32 - '0' as u32));
    }
    let (piece, color) = if c == 'P' {
        (PieceType::Pawn, Color::White)
    } else if c == 'N' {
        (PieceType::Knight, Color::White)
    } else if c == 'B' {
        (PieceType::Bishop, Color::White)
    } else if c == 'R' {
        (PieceType::Rook, Color::White)
    } else if c == 'Q' {
        (PieceType::Queen, Color::White)
    } else if c == 'K' {
        (PieceType::King, Color::White)
    } else if c == 'p' {
        (PieceType::Pawn, Color::Black)
    } else if c == 'n' {
        (PieceType::Knight, Color::Black)
    } else if c == 'b' {
        (PieceType::Bishop, Color::Black)
    } else if c == 'r' {
        (PieceType::Rook, Color::Black)
    } else if c == 'q' {
        (PieceType::Queen, Color::Black)
    } else if c == 'k' {
        (PieceType::King, Color::Black)
    } else {
        return None;
    };
    Some(PieceResult::Piece(Piece { piece, color }))
}

/// A text spells out no squares once a beginning of it does not.
pub proof fn lemma_row_cells_fails(text: Seq<char>, k: int)
    requires
        0 <= k <= text.len(),
        row_cells(text.take(k)) is None,
    ensures
        row_cells(text) is None,
    decreases text.len(),
{
    if k < text.len() {
        assert(text.drop_last().take(k) == text.take(k));
        lemma_row_cells_fails(text.drop_last(), k);
    } else {
        assert(text.take(k) == text);
    }
}

/// Reads one rank from its text.
pub fn parse_row(text: &Vec<char>) -> (r: Option<[Option<Piece>; 8]>)
    ensures
        match r {
            Some(row) => rank_of(text@) == Some(row@),
            None => rank_of(text@) is None,
        },
{
    let mut cur_line: Vec<Option<Piece>> = Vec::new();
    let mut i: usize = 0;
    while i < text.len()
        invariant
            i <= text.len(),
            row_cells(text@.take(i as int)) == Some(cur_line@),
        decreases text.len() - i,
    {
        let c = text[i];
        proof {
            let longer = text@.take(i + 1);
            assert(longer.drop_last() == text@.take(i as int));
            assert(longer.last() == c);
        }
        match parse_piece(c) {
            Some(PieceResult::Piece(p)) => {
                cur_line.push(Some(p));
            },
            Some(PieceResult::Empty(n)) => {
                let ghost base = cur_line@;
                let mut j: u32 = 0;
                while j < n
                    invariant
                        j <= n,
                        cur_line@ == base + blanks(j as nat),
                    decreases n - j,
                {
                    cur_line.push(None);
                    j += 1;
                    assert(cur_line@ =~= base + blanks(j as nat));
                }
            },
            None => {
                proof {
                    lemma_row_cells_fails(text@, i + 1);
                }
                return None;
            },
        }
        i += 1;
    }
    proof {
        assert(text@.take(i as int) == text@);
    }
    if cur_line.len() != 8 {
        return None;
    }
    let mut row: [Option<Piece>; 8] = [None; 8];
    let mut f: usize = 0;
    while f < 8
        invariant
            f <= 8,
            cur_line@.len() == 8,
            forall|j: int| 0 <= j < f ==> row@[j] == cur_line@[j],
        decreases 8 - f,
    {
        row[f] = cur_line[f];
        f += 1;
    }
    assert(row@ =~= cur_line@);
    Some(row)
}

/// Reads the grid from the placement field. The error holds the field.
pub fn parse_boardstate(s: &str) -> (r: Result<[[Option<Piece>; 8]; 8], Error>)
    ensures
        match r {
            Ok(rows) => placement(s@) == Some(grid_of(rows)),
            Err(e) => placement(s@) is None && (e matches Error::InvalidFen(t) && t@ == s@),
        },
{
    let chars = chars_of(s);
    let lines = split_chars(&chars, '/');
    let ghost rows = split(s@, '/');
    if lines.len() != 8 {
        return Err(Error::InvalidFen(s.to_owned()));
    }
    let mut grid: [[Option<Piece>; 8]; 8] = [[None; 8]; 8];
    let mut i: usize = 0;
    while i < 8
        invariant
            i <= 8,
            lines@.len() == 8,
            rows == split(s@, '/'),
            texts(lines@) == rows,
            forall|j: int| 0 <= j < i ==> rank_of(#[trigger] rows[j]) == Some(grid@[7 - j]@),
        decreases 8 - i,
    {
        assert(texts(lines@)[i as int] == lines@[i as int]@);
        match parse_row(&lines[i]) {
            Some(row) => {
                grid[7 - i] = row;
            },
            None => {
                assert(rank_of(rows[i as int]) is None);
                return Err(Error::InvalidFen(s.to_owned()));
            },
        }
        i += 1;
    }
    proof {
        assert(placement(s@)->0 =~= grid_of(grid));
    }
    Ok(grid)
}

/// Reads a position from a line of notation. Where the placement field is
/// at fault the error holds that field, and the whole line otherwise.
pub fn parse(s: &str) -> (r: Result<Board, Error>)
    ensures
        match r {
            Ok(board) => position_of(s@) == Some(board@),
            Err(e) => {
                &&& position_of(s@) is None
                &&& e matches Error::InvalidFen(t)
                &&& t@ == if placement(split(s@, ' ')[0]) is None {
                    split(s@, ' ')[0]
                } else {
                    s@
                }
            },
        },
{
    let chars = chars_of(s);
    let parts = split_chars(&chars, ' ');
    let ghost fields = split(s@, ' ');
    proof {
        lemma_split_nonempty(s@, ' ');
        assert forall|i: int| 0 <= i < parts@.len() implies #[trigger] parts@[i]@ == fields[i] by {
            assert(texts(parts@)[i] == parts@[i]@);
        }
    }
    let placement_field = string_of(&parts[0]);
    let grid = match parse_boardstate(placement_field.as_str()) {
        Ok(grid) => grid,
        Err(e) => {
            return Err(e);
        },
    };
    if parts.len() < 6 {
        return Err(Error::InvalidFen(s.to_owned()));
    }
    let turn_field = &parts[1];
    let turn = if turn_field.len() == 1 && turn_field[0] == 'w' {
        assert(turn_field@ =~= seq!['w']);
        Color::White
    } else if turn_field.len() == 1 && turn_field[0] == 'b' {
        assert(turn_field@ =~= seq!['b']);
        Color::Black
    } else {
        proof {
            if turn_of(fields[1]) is Some {
                assert(fields[1].len() == 1);
                assert(fields[1][0] == 'w' || fields[1][0] == 'b');
            }
        }
        return Err(Error::InvalidFen(s.to_owned()));
    };
    let castling = CastlingFlags {
        white_short: has_char(&parts[2], 'K'),
        white_long: has_char(&parts[2], 'Q'),
        black_short: has_char(&parts[2], 'k'),
        black_long: has_char(&parts[2], 'q'),
    };
    let target_field = &parts[3];
    let en_passant = if target_field.len() == 1 && target_field[0] == '-' {
        assert(target_field@ =~= seq!['-']);
        None
    } else {
        proof {
            if fields[3] == seq!['-'] {
                assert(fields[3].len() == 1);
                assert(fields[3][0] == '-');
            }
        }
        match SquareSpec::from_chars(target_field) {
            Some(sq) => Some(sq),
            None => {
                return Err(Error::InvalidFen(s.to_owned()));
            },
        }
    };
    let halfmove = match parse_u32(&parts[4]) {
        Some(n) => n,
        None => {
            return Err(Error::InvalidFen(s.to_owned()));
        },
    };
    let fullmove = match parse_u32(&parts[5]) {
        Some(n) => n,
        None => {
            return Err(Error::InvalidFen(s.to_owned()));
        },
    };
    Ok(Board::from_parts(grid, turn, castling, en_passant, halfmove, fullmove))
}

/// Whether the character occurs among the characters.
pub fn has_char(chars: &Vec<char>, c: char) -> (b: bool)
    ensures
        b == chars@.contains(c),
{
    let mut i: usize = 0;
    while i < chars.len()
        invariant
            i <= chars.len(),
            forall|j: int| 0 <= j < i ==> chars@[j] != c,
        decreases chars.len() - i,
    {
        if chars[i] == c {
            return true;
        }
        i += 1;
    }
    false
}

} // verus!
