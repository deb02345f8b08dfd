//! Pieces, their kinds and their colors.
use vstd::prelude::*;
use crate::error::Error;
use crate::text::{chars_of, string_of};

verus! {

/// Enum representing the two colors in chess
#[derive(Copy, Clone, Debug, PartialEq, Eq, Hash, Structural)]
pub enum Color {
    White,
    Black,
}

/// The different kinds of pieces
#[derive(Copy, Clone, Debug, PartialEq, Eq, Hash, Structural)]
pub enum PieceType {
    Pawn,
    Rook,
    Bishop,
    Queen,
    Knight,
    King,
}

/// A piece: its kind and its color
#[derive(Copy, Clone, Debug, PartialEq, Eq, Hash, Structural)]
pub struct Piece {
    /// Which kind of piece this is
    pub piece: PieceType,
    /// What color this piece is
    pub color: Color,
}

impl Color {
    /// The other color.
    pub open spec fn other(self) -> Color {
        match self {
            Color::White => Color::Black,
            Color::Black => Color::White,
        }
    }

    /// Rank index of the row on which the color's king and rooks start.
    pub open spec fn spec_home_rank(self) -> int {
        match self {
            Color::White => 0,
            Color::Black => 7,
        }
    }

    /// Rank index of the row on which the color's pawns start.
    pub open spec fn spec_pawn_home_rank(self) -> int {
        match self {
            Color::White => 1,
            Color::Black => 6,
        }
    }

    /// Rank change of one pawn step of this color.
    pub open spec fn forward(self) -> int {
        match self {
            Color::White => 1,
            Color::Black => -1,
        }
    }

    /// Get the opposite color
    pub fn opposite(&self) -> (c: Color)
        ensures
            c == self.other(),
    {
        match *self {
            Color::White => Color::Black,
            Color::Black => Color::White,
        }
    }

    /// The board index of the color's home rank: 0 for white and 7 for black.
    pub fn home_rank(&self) -> (r: u32)
        ensures
            r == self.spec_home_rank(),
    {
        match *self {
            Color::White => 0,
            Color::Black => 7,
        }
    }

    /// The board index of the color's pawn rank: 1 for white and 6 for black.
    pub fn pawn_home_rank(&self) -> (r: u32)
        ensures
            r == self.spec_pawn_home_rank(),
    {
        match *self {
            Color::White => 1,
            Color::Black => 6,
        }
    }
}

impl PieceType {
    /// The capital letter of the kind.
    pub open spec fn letter(self) -> char {
        match self {
            PieceType::Pawn => 'P',
            PieceType::Rook => 'R',
            PieceType::Bishop => 'B',
            PieceType::Queen => 'Q',
            PieceType::Knight => 'N',
            PieceType::King => 'K',
        }
    }

    /// The small letter of the kind.
    pub open spec fn small_letter(self) -> char {
        match self {
            PieceType::Pawn => 'p',
            PieceType::Rook => 'r',
            PieceType::Bishop => 'b',
            PieceType::Queen => 'q',
            PieceType::Knight => 'n',
            PieceType::King => 'k',
        }
    }

    /// The kind that a capital letter names.
    pub open spec fn of_letter(c: char) -> Option<PieceType> {
        if c == 'P' {
            Some(PieceType::Pawn)
        } else if c == 'R' {
            Some(PieceType::Rook)
        } else if c == 'B' {
            Some(PieceType::Bishop)
        } else if c == 'Q' {
            Some(PieceType::Queen)
        } else if c == 'N' {
            Some(PieceType::Knight)
        } else if c == 'K' {
            Some(PieceType::King)
        } else {
            None
        }
    }

    /// The kind that a designator names: one capital letter of the table.
    pub open spec fn of_text(s: Seq<char>) -> Option<PieceType> {
        if s.len() == 1 {
            PieceType::of_letter(s[0])
        } else {
            None
        }
    }

    /// The capital letter of the kind.
    pub fn letter_char(&self) -> (c: char)
        ensures
            c == self.letter(),
    {
        match self {
            PieceType::Pawn => 'P',
            PieceType::Rook => 'R',
            PieceType::Bishop => 'B',
            PieceType::Queen => 'Q',
            PieceType::Knight => 'N',
            PieceType::King => 'K',
        }
    }

    /// The kind as text: its capital letter.
    pub fn to_string(&self) -> (s: String)
        ensures
            s@ == seq![self.letter()],
    {
        let mut out: Vec<char> = Vec::new();
        out.push(self.letter_char());
        string_of(&out)
    }
}

impl core::str::FromStr for PieceType {
    type Err = Error;

    /// Reads a kind from its capital letter; any other text is rejected,
    /// with the text in the error.
    fn from_str(s: &str) -> (r: Result<PieceType, Error>)
        ensures
            match r {
                Ok(kind) => PieceType::of_text(s@) == Some(kind),
                Err(e) => PieceType::of_text(s@) is None && (e matches Error::InvalidPiece(t)
                    && t@ == s@),
            },
    {
        let chars = chars_of(s);
        if chars.len() == 1 {
            let c = chars[0];
            if c == 'P' {
                return Ok(PieceType::Pawn);
            } else if c == 'R' {
                return Ok(PieceType::Rook);
            } else if c == 'B' {
                return Ok(PieceType::Bishop);
            } else if c == 'Q' {
                return Ok(PieceType::Queen);
            } else if c == 'N' {
                return Ok(PieceType::Knight);
            } else if c == 'K' {
                return Ok(PieceType::King);
            }
        }
        Err(Error::InvalidPiece(s.to_owned()))
    }
}

impl Piece {
    /// The letter of the piece: capital for White, small for Black.
    pub open spec fn symbol(self) -> char {
        match self.color {
            Color::White => self.piece.letter(),
            Color::Black => self.piece.small_letter(),
        }
    }

    /// The letter of the piece: capital for White, small for Black.
    pub fn symbol_char(&self) -> (c: char)
        ensures
            c == self.symbol(),
    {
        match self.color {
            Color::White => self.piece.letter_char(),
            Color::Black => match self.piece {
                PieceType::Pawn => 'p',
                PieceType::Rook => 'r',
                PieceType::Bishop => 'b',
                PieceType::Queen => 'q',
                PieceType::Knight => 'n',
                PieceType::King => 'k',
            },
        }
    }

    /// The piece as text: its letter.
    pub fn to_string(&self) -> (s: String)
        ensures
            s@ == seq![self.symbol()],
    {
        let mut out: Vec<char> = Vec::new();
        out.push(self.symbol_char());
        string_of(&out)
    }

    /// Creates a new Piece
    pub fn new(piece: PieceType, color: Color) -> (p: Piece)
        ensures
            p == (Piece { piece, color }),
    {
        Piece { piece, color }
    }
}

} // verus!
