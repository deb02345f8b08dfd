//! The mathematical model of a position: what a board holds, as plain values.
use vstd::prelude::*;
use super::move_types::Castling;
use super::squarespec::SquareSpec;
use crate::piece::{Color, Piece, PieceType};

verus! {

/// The four castling rights, each of which is held or withdrawn on its own.
#[derive(Copy, Clone, Debug, PartialEq, Eq, Structural)]
pub struct CastlingFlags {
    /// White may still castle king-side
    pub white_short: bool,
    /// White may still castle queen-side
    pub white_long: bool,
    /// Black may still castle king-side
    pub black_short: bool,
    /// Black may still castle queen-side
    pub black_long: bool,
}

impl CastlingFlags {
    /// Whether the right of `color` to castle on `side` is still held.
    pub open spec fn allows(self, side: Castling, color: Color) -> bool {
        match (color, side) {
            (Color::White, Castling::Short) => self.white_short,
            (Color::White, Castling::Long) => self.white_long,
            (Color::Black, Castling::Short) => self.black_short,
            (Color::Black, Castling::Long) => self.black_long,
        }
    }

    /// The rights with the one of `color` on `side` withdrawn.
    pub open spec fn without(self, side: Castling, color: Color) -> CastlingFlags {
        match (color, side) {
            (Color::White, Castling::Short) => CastlingFlags { white_short: false, ..self },
            (Color::White, Castling::Long) => CastlingFlags { white_long: false, ..self },
            (Color::Black, Castling::Short) => CastlingFlags { black_short: false, ..self },
            (Color::Black, Castling::Long) => CastlingFlags { black_long: false, ..self },
        }
    }

    /// The rights with both of `color` withdrawn.
    pub open spec fn without_color(self, color: Color) -> CastlingFlags {
        self.without(Castling::Short, color).without(Castling::Long, color)
    }

    /// The rights after a rook of `color` has left, or was taken on, `sq`:
    /// the rook on the a-file corner of the home rank of its color carries
    /// the queen-side right, the one on the h-file corner the king-side
    /// right, and a rook anywhere else none.
    pub open spec fn without_rook(self, sq: SquareSpec, color: Color) -> CastlingFlags {
        if sq.rank == color.spec_home_rank() && sq.file == 0 {
            self.without(Castling::Long, color)
        } else if sq.rank == color.spec_home_rank() && sq.file == 7 {
            self.without(Castling::Short, color)
        } else {
            self
        }
    }

    /// No right held.
    pub fn empty() -> (flags: CastlingFlags)
        ensures
            flags == (CastlingFlags {
                white_short: false,
                white_long: false,
                black_short: false,
                black_long: false,
            }),
    {
        CastlingFlags { white_short: false, white_long: false, black_short: false, black_long: false }
    }

    /// Every right held, as at the start of a game.
    pub fn all() -> (flags: CastlingFlags)
        ensures
            flags == (CastlingFlags {
                white_short: true,
                white_long: true,
                black_short: true,
                black_long: true,
            }),
    {
        CastlingFlags { white_short: true, white_long: true, black_short: true, black_long: true }
    }

    /// Whether the right of `color` to castle on `side` is still held.
    pub fn contains(&self, side: Castling, color: Color) -> (b: bool)
        ensures
            b == self.allows(side, color),
    {
        match color {
            Color::White => match side {
                Castling::Short => self.white_short,
                Castling::Long => self.white_long,
            },
            Color::Black => match side {
                Castling::Short => self.black_short,
                Castling::Long => self.black_long,
            },
        }
    }

    /// Withdraws the right of `color` to castle on `side`.
    pub fn remove(&mut self, side: Castling, color: Color)
        ensures
            *final(self) == old(self).without(side, color),
    {
        match color {
            Color::White => match side {
                Castling::Short => {
                    self.white_short = false;
                },
                Castling::Long => {
                    self.white_long = false;
                },
            },
            Color::Black => match side {
                Castling::Short => {
                    self.black_short = false;
                },
                Castling::Long => {
                    self.black_long = false;
                },
            },
        }
    }

    /// Withdraws both rights of `color`.
    pub fn remove_color(&mut self, color: Color)
        ensures
            *final(self) == old(self).without_color(color),
    {
        self.remove(Castling::Short, color);
        self.remove(Castling::Long, color);
    }

    /// Withdraws the right that goes with a rook of `color` on `sq`, if
    /// `sq` is a corner of the home rank of that color.
    pub fn remove_rook(&mut self, sq: SquareSpec, color: Color)
        ensures
            *final(self) == old(self).without_rook(sq, color),
    {
        if sq.rank == color.home_rank() {
            if sq.file == 0 {
                self.remove(Castling::Long, color);
            } else if sq.file == 7 {
                self.remove(Castling::Short, color);
            }
        }
    }
}

/// A full snapshot of a game position.
pub struct Position {
    /// The grid: `cells[rank][file]`, eight ranks of eight files
    pub cells: Seq<Seq<Option<Piece>>>,
    /// The color to move
    pub turn: Color,
    /// The castling rights still held
    pub castling: CastlingFlags,
    /// The square a pawn has just passed over in a double step, if any
    pub en_passant: Option<SquareSpec>,
    /// Moves since the last capture or pawn move
    pub halfmove: nat,
    /// Number of the move, which goes up after Black has moved
    pub fullmove: nat,
}

/// The kind that starts on the given file of a home rank.
pub open spec fn home_kind(file: int) -> PieceType {
    if file == 0 || file == 7 {
        PieceType::Rook
    } else if file == 1 || file == 6 {
        PieceType::Knight
    } else if file == 2 || file == 5 {
        PieceType::Bishop
    } else if file == 3 {
        PieceType::Queen
    } else {
        PieceType::King
    }
}

/// What stands on a cell when a game starts.
pub open spec fn initial_cell(rank: int, file: int) -> Option<Piece> {
    if rank == 0 {
        Some(Piece { piece: home_kind(file), color: Color::White })
    } else if rank == 1 {
        Some(Piece { piece: PieceType::Pawn, color: Color::White })
    } else if rank == 6 {
        Some(Piece { piece: PieceType::Pawn, color: Color::Black })
    } else if rank == 7 {
        Some(Piece { piece: home_kind(file), color: Color::Black })
    } else {
        None
    }
}

impl Position {
    /// The grid has eight ranks of eight files.
    pub open spec fn wf(self) -> bool {
        &&& self.cells.len() == 8
        &&& forall|r: int| 0 <= r < 8 ==> (#[trigger] self.cells[r]).len() == 8
    }

    /// The grid has its shape and the en-passant target, if there is one, is
    /// a square of the board.
    pub open spec fn sound(self) -> bool {
        self.wf() && (self.en_passant matches Some(sq) ==> sq.wf())
    }

    /// Both counters fit the 32 bits that a board has for each.
    pub open spec fn fits(self) -> bool {
        self.halfmove <= u32::MAX && self.fullmove <= u32::MAX
    }

    /// What stands on the square.
    pub open spec fn at(self, sq: SquareSpec) -> Option<Piece> {
        self.cells[sq.rank as int][sq.file as int]
    }

    /// The position with the content of one square replaced.
    pub open spec fn with(self, sq: SquareSpec, content: Option<Piece>) -> Position {
        Position {
            cells: self.cells.update(
                sq.rank as int,
                self.cells[sq.rank as int].update(sq.file as int, content),
            ),
            ..self
        }
    }

    /// A piece of `color` stands on the square.
    pub open spec fn friendly(self, color: Color, sq: SquareSpec) -> bool {
        self.at(sq) matches Some(p) && p.color == color
    }

    /// A piece of the other color than `color` stands on the square.
    pub open spec fn hostile(self, color: Color, sq: SquareSpec) -> bool {
        self.at(sq) matches Some(p) && p.color != color
    }

    /// The empty board with the given side to move and rights, no en-passant
    /// target, and the counters at their start.
    pub open spec fn empty(turn: Color, castling: CastlingFlags) -> Position {
        Position {
            cells: Seq::new(8, |r: int| Seq::new(8, |f: int| None)),
            turn,
            castling,
            en_passant: None,
            halfmove: 0,
            fullmove: 1,
        }
    }

    /// The standard start position.
    pub open spec fn initial() -> Position {
        Position {
            cells: Seq::new(8, |r: int| Seq::new(8, |f: int| initial_cell(r, f))),
            turn: Color::White,
            castling: CastlingFlags {
                white_short: true,
                white_long: true,
                black_short: true,
                black_long: true,
            },
            en_passant: None,
            halfmove: 0,
            fullmove: 1,
        }
    }
}

} // verus!
