//! Moves, as values.
use vstd::prelude::*;
use super::squarespec::SquareSpec;
use crate::piece::{Color, PieceType};
use crate::text::string_of;

verus! {

/// Enum for the two ways you can castle
#[derive(Copy, Clone, Debug, PartialEq, Eq, Hash, Structural)]
pub enum Castling {
    /// Castling king-side
    Short,
    /// Castling queen-side
    Long,
}

/// The general type to represent moves.
#[derive(Copy, Clone, Debug, PartialEq, Eq, Hash, Structural)]
pub enum Move {
    /// A "normal" move between two squares. This covers most moves,
    /// most notably en passant
    Normal { from: SquareSpec, to: SquareSpec },
    /// Castling moves two pieces; its squares follow from the side and the
    /// color that castles
    Castling(Castling),
    /// A pawn move onto the far rank, with the kind the pawn turns into
    Promotion { from: SquareSpec, to: SquareSpec, target: PieceType },
}

impl Castling {
    /// File on which the king lands.
    pub open spec fn king_file(self) -> int {
        match self {
            Castling::Short => 6,
            Castling::Long => 2,
        }
    }

    /// File from which the rook leaves.
    pub open spec fn rook_file(self) -> int {
        match self {
            Castling::Short => 7,
            Castling::Long => 0,
        }
    }

    /// File on which the rook lands.
    pub open spec fn rook_target_file(self) -> int {
        match self {
            Castling::Short => 5,
            Castling::Long => 3,
        }
    }
}

impl Move {
    /// Every square that the move names lies on the board.
    pub open spec fn wf(self) -> bool {
        match self {
            Move::Normal { from, to } => from.wf() && to.wf(),
            Move::Castling(_) => true,
            Move::Promotion { from, to, target } => from.wf() && to.wf(),
        }
    }

    /// The square that the moved piece (the king, when castling) leaves.
    pub open spec fn origin(self, color: Color) -> SquareSpec {
        match self {
            Move::Normal { from, to } => from,
            Move::Castling(_) => SquareSpec { rank: color.spec_home_rank() as u32, file: 4 },
            Move::Promotion { from, to, target } => from,
        }
    }

    /// The square on which the moved piece (the king, when castling) lands.
    pub open spec fn target(self, color: Color) -> SquareSpec {
        match self {
            Move::Normal { from, to } => to,
            Move::Castling(side) => SquareSpec {
                rank: color.spec_home_rank() as u32,
                file: side.king_file() as u32,
            },
            Move::Promotion { from, to, target } => to,
        }
    }

    /// The text of the move: both squares; `O-O` or `O-O-O`; both squares,
    /// `=` and the letter of the new kind.
    pub open spec fn text(self) -> Seq<char> {
        match self {
            Move::Normal { from, to } => from.text() + to.text(),
            Move::Castling(Castling::Short) => seq!['O', '-', 'O'],
            Move::Castling(Castling::Long) => seq!['O', '-', 'O', '-', 'O'],
            Move::Promotion { from, to, target } => from.text() + to.text() + seq![
                '=',
                target.letter(),
            ],
        }
    }

    /// The square the move starts on, for the color that makes it.
    pub fn from(&self, color: Color) -> (sq: SquareSpec)
        ensures
            sq == self.origin(color),
    {
        match self {
            Move::Normal { from, .. } => *from,
            Move::Promotion { from, .. } => *from,
            Move::Castling(_) => SquareSpec { rank: color.home_rank(), file: 4 },
        }
    }

    /// The square the move ends on, for the color that makes it.
    pub fn to(&self, color: Color) -> (sq: SquareSpec)
        ensures
            sq == self.target(color),
    {
        match self {
            Move::Normal { to, .. } => *to,
            Move::Promotion { to, .. } => *to,
            Move::Castling(side) => {
                let file: u32 = match side {
                    Castling::Short => 6,
                    Castling::Long => 2,
                };
                SquareSpec { rank: color.home_rank(), file }
            },
        }
    }

    /// The move in its textual form.
    pub fn to_string(&self) -> (s: String)
        ensures
            s@ == self.text(),
    {
        let mut out: Vec<char> = Vec::new();
        match self {
            Move::Normal { from, to } => {
                from.push_text(&mut out);
                to.push_text(&mut out);
            },
            Move::Castling(Castling::Short) => {
                out.push('O');
                out.push('-');
                out.push('O');
            },
            Move::Castling(Castling::Long) => {
                out.push('O');
                out.push('-');
                out.push('O');
                out.push('-');
                out.push('O');
            },
            Move::Promotion { from, to, target } => {
                from.push_text(&mut out);
                to.push_text(&mut out);
                out.push('=');
                out.push(target.letter_char());
            },
        }
        string_of(&out)
    }
}

} // verus!
