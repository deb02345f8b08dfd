//! The rules of movement, as predicates over a position.
//!
//! A move is *pseudo-legal* when it fits the geometry of the piece and what
//! stands on the board; it is *legal* when, in addition, it does not leave
//! the king of the side to move attacked.
use vstd::prelude::*;
use super::move_types::{Castling, Move};
use super::position::Position;
use super::squarespec::{magnitude, SquareDiff, SquareSpec};
use crate::piece::{Color, Piece, PieceType};

verus! {

/// `x` lies strictly between `a` and `b`; where the two are equal, on them.
pub open spec fn between(a: int, x: int, b: int) -> bool {
    (a < x && x < b) || (b < x && x < a) || (a == b && x == a)
}

/// For `from` and `to` on one rank, file or diagonal: `mid` lies on the line
/// that joins them, and is neither of them.
pub open spec fn strictly_between(from: SquareSpec, mid: SquareSpec, to: SquareSpec) -> bool {
    &&& between(from.rank as int, mid.rank as int, to.rank as int)
    &&& between(from.file as int, mid.file as int, to.file as int)
    &&& (from.rank == to.rank || from.file == to.file || magnitude(mid.rank - from.rank)
        == magnitude(mid.file - from.file))
}

/// Two different squares on one rank or one file.
pub open spec fn rook_line(from: SquareSpec, to: SquareSpec) -> bool {
    from != to && (from.rank == to.rank || from.file == to.file)
}

/// Two different squares on one diagonal.
pub open spec fn bishop_line(from: SquareSpec, to: SquareSpec) -> bool {
    from != to && magnitude(to.rank - from.rank) == magnitude(to.file - from.file)
}

/// A knight's jump: two along one axis and one along the other.
pub open spec fn knight_jump(from: SquareSpec, to: SquareSpec) -> bool {
    let dr = magnitude(to.rank - from.rank);
    let df = magnitude(to.file - from.file);
    (dr == 1 && df == 2) || (dr == 2 && df == 1)
}

/// One step in any of the eight directions.
pub open spec fn king_step(from: SquareSpec, to: SquareSpec) -> bool {
    from != to && magnitude(to.rank - from.rank) <= 1 && magnitude(to.file - from.file) <= 1
}

/// The rank on which a pawn of `color` is promoted.
pub open spec fn far_rank(color: Color) -> int {
    color.other().spec_home_rank()
}

/// One step straight ahead for a pawn of `color`.
pub open spec fn pawn_advance(color: Color, from: SquareSpec, to: SquareSpec) -> bool {
    to.file == from.file && to.rank == from.rank + color.forward()
}

/// Two steps straight ahead from the rank on which the pawns of `color` start.
pub open spec fn pawn_double(color: Color, from: SquareSpec, to: SquareSpec) -> bool {
    &&& from.rank == color.spec_pawn_home_rank()
    &&& to.file == from.file
    &&& to.rank == from.rank + 2 * color.forward()
}

/// One step ahead and one to the side for a pawn of `color`.
pub open spec fn pawn_diagonal(color: Color, from: SquareSpec, to: SquareSpec) -> bool {
    magnitude(to.file - from.file) == 1 && to.rank == from.rank + color.forward()
}

/// The square one step ahead of `from` for a pawn of `color`.
pub open spec fn pawn_ahead(color: Color, from: SquareSpec) -> SquareSpec {
    SquareSpec { rank: (from.rank + color.forward()) as u32, file: from.file }
}

/// The square one step behind `to` for a pawn of `color`: where the pawn
/// stands that is taken en passant on `to`.
pub open spec fn pawn_behind(color: Color, to: SquareSpec) -> SquareSpec {
    SquareSpec { rank: (to.rank - color.forward()) as u32, file: to.file }
}

/// The kinds a pawn may turn into.
pub open spec fn promotable(kind: PieceType) -> bool {
    kind == PieceType::Queen || kind == PieceType::Knight || kind == PieceType::Bishop || kind
        == PieceType::Rook
}

/// The direction in which the king crosses a square when it castles on `side`.
pub open spec fn castle_step(side: Castling) -> SquareDiff {
    match side {
        Castling::Short => SquareDiff { d_rank: 0, d_file: 1 },
        Castling::Long => SquareDiff { d_rank: 0, d_file: -1i32 },
    }
}

/// The king of `color`.
pub open spec fn king_of(color: Color) -> Piece {
    Piece { piece: PieceType::King, color }
}

impl Position {
    /// Every square strictly between the two is empty.
    pub open spec fn clear_between(self, from: SquareSpec, to: SquareSpec) -> bool {
        forall|mid: SquareSpec|
            mid.wf() && #[trigger] strictly_between(from, mid, to) ==> self.at(mid) is None
    }

    /// What the geometry of a kind other than the pawn allows between two
    /// squares of this position: a knight jumps, a king steps, the others
    /// slide along their lines over empty squares only.
    pub open spec fn reaches(self, kind: PieceType, from: SquareSpec, to: SquareSpec) -> bool {
        match kind {
            PieceType::Pawn => false,
            PieceType::Knight => knight_jump(from, to),
            PieceType::King => king_step(from, to),
            PieceType::Rook => rook_line(from, to) && self.clear_between(from, to),
            PieceType::Bishop => bishop_line(from, to) && self.clear_between(from, to),
            PieceType::Queen => (rook_line(from, to) || bishop_line(from, to))
                && self.clear_between(from, to),
        }
    }

    /// The pseudo-legal moves of a pawn of `color` on `from`: a step ahead
    /// onto an empty square, which is a promotion to each of the four kinds
    /// on the far rank and a normal move elsewhere; a double step from the
    /// home rank over an empty square onto an empty square; a step to the
    /// diagonal onto the en-passant target or onto a piece of the other color.
    pub open spec fn pawn_move(self, color: Color, from: SquareSpec, m: Move) -> bool {
        match m {
            Move::Normal { from: origin, to } => {
                &&& origin == from
                &&& to.wf()
                &&& {
                    ||| pawn_advance(color, from, to) && self.at(to) is None && to.rank
                        != far_rank(color)
                    ||| pawn_double(color, from, to) && self.at(to) is None && self.at(
                        pawn_ahead(color, from),
                    ) is None
                    ||| pawn_diagonal(color, from, to) && (self.en_passant == Some(to)
                        || self.hostile(color, to))
                }
            },
            Move::Castling(_) => false,
            Move::Promotion { from: origin, to, target } => {
                &&& origin == from
                &&& to.wf()
                &&& pawn_advance(color, from, to)
                &&& self.at(to) is None
                &&& to.rank == far_rank(color)
                &&& promotable(target)
            },
        }
    }

    /// The move fits the geometry of `piece` standing on `from`, whatever
    /// becomes of the king. Castling is not among these moves.
    pub open spec fn pseudo_legal(self, piece: Piece, from: SquareSpec, m: Move) -> bool {
        if piece.piece == PieceType::Pawn {
            self.pawn_move(piece.color, from, m)
        } else {
            &&& m matches Move::Normal { from: origin, to }
            &&& origin == from
            &&& to.wf()
            &&& !self.friendly(piece.color, to)
            &&& self.reaches(piece.piece, from, to)
        }
    }

    /// A piece of `attacker` on `origin` has a pseudo-legal normal move onto
    /// `sq`.
    pub open spec fn attacks(self, attacker: Color, origin: SquareSpec, sq: SquareSpec) -> bool {
        &&& origin.wf()
        &&& self.at(origin) matches Some(piece)
        &&& piece.color == attacker
        &&& self.pseudo_legal(piece, origin, Move::Normal { from: origin, to: sq })
    }

    /// Some piece of `attacker` has a pseudo-legal normal move onto `sq`.
    pub open spec fn attacked_by(self, attacker: Color, sq: SquareSpec) -> bool {
        exists|origin: SquareSpec| #[trigger] self.attacks(attacker, origin, sq)
    }

    /// `sq` is the square of the king of `color` that a walk of the board
    /// from a1, rank by rank, meets first.
    pub open spec fn first_king(self, color: Color, sq: SquareSpec) -> bool {
        &&& sq.wf()
        &&& self.at(sq) == Some(king_of(color))
        &&& forall|s: SquareSpec|
            s.wf() && s.ordinal() < sq.ordinal() ==> #[trigger] self.at(s) != Some(king_of(color))
    }

    /// No king of `color` stands on the board.
    pub open spec fn kingless(self, color: Color) -> bool {
        forall|s: SquareSpec| s.wf() ==> #[trigger] self.at(s) != Some(king_of(color))
    }

    /// The squares between king and rook on the home rank of `color` are
    /// empty: b, c and d on the queen's side, f and g on the king's side.
    pub open spec fn castle_path_vacant(self, side: Castling, color: Color) -> bool {
        let rank = color.spec_home_rank() as u32;
        match side {
            Castling::Long => {
                &&& self.at(SquareSpec { rank, file: 1 }) is None
                &&& self.at(SquareSpec { rank, file: 2 }) is None
                &&& self.at(SquareSpec { rank, file: 3 }) is None
            },
            Castling::Short => {
                &&& self.at(SquareSpec { rank, file: 5 }) is None
                &&& self.at(SquareSpec { rank, file: 6 }) is None
            },
        }
    }

    /// Castling on `side` is offered to the king of `color` on `from`: the
    /// right is held, the squares between king and rook are empty, and
    /// neither the king's square nor the one it crosses is attacked.
    pub open spec fn castle_offered(self, side: Castling, color: Color, from: SquareSpec) -> bool {
        &&& self.castling.allows(side, color)
        &&& self.castle_path_vacant(side, color)
        &&& !self.attacked_by(color.other(), from)
        &&& (from.shifted(castle_step(side)) matches Some(crossed) ==> !self.attacked_by(
            color.other(),
            crossed,
        ))
    }

    /// The moves that the generator considers for `piece` on `from`: the
    /// pseudo-legal ones and, where `castling` is set and the piece is a
    /// king, the castles on offer.
    pub open spec fn candidate(self, piece: Piece, from: SquareSpec, m: Move, castling: bool) -> bool {
        ||| self.pseudo_legal(piece, from, m)
        ||| {
            &&& castling
            &&& piece.piece == PieceType::King
            &&& m matches Move::Castling(side)
            &&& self.castle_offered(side, piece.color, from)
        }
    }

    /// The position after the pieces of `m` have been moved with no regard
    /// for the rules: what stands on the origin lands on the target, a
    /// castle moves king and rook of the side to move and withdraws its
    /// rights, a promotion changes the kind of what lands. The turn passes.
    pub open spec fn moved_unchecked(self, m: Move) -> Position {
        match m {
            Move::Normal { from, to } => Position {
                turn: self.turn.other(),
                ..self.with(to, self.at(from)).with(from, None)
            },
            Move::Castling(side) => Position {
                turn: self.turn.other(),
                castling: self.castling.without_color(self.turn),
                ..self.castled(side)
            },
            Move::Promotion { from, to, target } => {
                let lifted = self.with(to, self.at(from)).with(from, None);
                let landed = match lifted.at(to) {
                    Some(piece) => lifted.with(to, Some(Piece { piece: target, color: piece.color })),
                    None => lifted,
                };
                Position { turn: self.turn.other(), ..landed }
            },
        }
    }

    /// The grid after king and rook of the side to move have changed places
    /// as castling on `side` has it: the king from the e-file to the g- or
    /// c-file, the rook from the h- or a-file to the f- or d-file.
    pub open spec fn castled(self, side: Castling) -> Position {
        let rank = self.turn.spec_home_rank() as u32;
        let king_from = SquareSpec { rank, file: 4 };
        let king_to = SquareSpec { rank, file: side.king_file() as u32 };
        let rook_from = SquareSpec { rank, file: side.rook_file() as u32 };
        let rook_to = SquareSpec { rank, file: side.rook_target_file() as u32 };
        self.with(king_to, self.at(king_from)).with(king_from, None).with(
            rook_to,
            self.at(rook_from),
        ).with(rook_from, None)
    }

    /// The castling rights after a rook that stands on `sq` has moved away or
    /// was taken there; unchanged where no rook stands on `sq`.
    pub open spec fn rights_less_rook(self, sq: SquareSpec) -> Position {
        match self.at(sq) {
            Some(piece) => if piece.piece == PieceType::Rook {
                Position {
                    castling: self.castling.without_rook(sq, piece.color),
                    ..self
                }
            } else {
                self
            },
            None => self,
        }
    }

    /// The position after the piece on `from` has made a normal move to
    /// `to`, but for the turn and the number of the move.
    ///
    /// A rook that leaves a corner of its home rank withdraws the right of
    /// that side, a king that moves both rights of its color, and a rook
    /// that is taken on a corner of its home rank the right of that side. A pawn that lands on the en-passant target takes the pawn
    /// one rank behind it. A pawn that has advanced two ranks leaves the
    /// square it passed over as the new en-passant target; any other move
    /// leaves none. The halfmove clock starts again at a capture or a pawn
    /// move and goes up by one otherwise.
    pub open spec fn moved_normal(self, from: SquareSpec, to: SquareSpec) -> Position {
        match self.at(from) {
            None => self,
            Some(piece) => {
                let pawn = piece.piece == PieceType::Pawn;
                let own = if piece.piece == PieceType::King {
                    self.castling.without_color(piece.color)
                } else {
                    self.rights_less_rook(from).castling
                };
                let rights = (Position { castling: own, ..self }).rights_less_rook(to).castling;
                let cleared = if pawn && self.en_passant == Some(to) {
                    self.with(pawn_behind(piece.color, to), None)
                } else {
                    self
                };
                Position {
                    cells: cleared.with(to, self.at(from)).with(from, None).cells,
                    castling: rights,
                    en_passant: if pawn && magnitude(to.rank - from.rank) == 2 {
                        Some(pawn_ahead(piece.color, from))
                    } else {
                        None
                    },
                    halfmove: if pawn || self.at(to) is Some {
                        0
                    } else {
                        self.halfmove + 1
                    },
                    ..self
                }
            },
        }
    }

    /// The position after the pawn on `from` has moved to `to` and turned
    /// into a `target`, but for the turn and the number of the move. A rook
    /// taken on a corner of its home rank withdraws the right of that side;
    /// the halfmove clock starts again.
    pub open spec fn moved_promotion(self, from: SquareSpec, to: SquareSpec, target: PieceType) -> Position {
        match self.at(from) {
            None => self,
            Some(piece) => Position {
                cells: self.with(to, Some(Piece { piece: target, color: piece.color })).with(
                    from,
                    None,
                ).cells,
                castling: self.rights_less_rook(to).castling,
                en_passant: None,
                halfmove: 0,
                ..self
            },
        }
    }

    /// The position that a legal move leads to: the pieces moved as the kind
    /// of move has it, the rights, the en-passant target and the halfmove
    /// clock brought up to date, the turn passed on, and the number of the
    /// move one higher after Black has moved.
    pub open spec fn moved(self, m: Move) -> Position {
        let after = match m {
            Move::Normal { from, to } => self.moved_normal(from, to),
            Move::Castling(side) => Position {
                castling: self.castling.without_color(self.turn),
                en_passant: None,
                halfmove: self.halfmove + 1,
                ..self.castled(side)
            },
            Move::Promotion { from, to, target } => self.moved_promotion(from, to, target),
        };
        Position {
            turn: self.turn.other(),
            fullmove: if self.turn == Color::Black {
                self.fullmove + 1
            } else {
                self.fullmove
            },
            ..after
        }
    }

    /// After `m`, made for `piece`, the first king of the side to move would
    /// stand attacked by a piece of the other color than `piece`.
    pub open spec fn leaves_king_attacked(self, piece: Piece, m: Move) -> bool {
        exists|king: SquareSpec|
            #[trigger] self.moved_unchecked(m).first_king(self.turn, king) && self.moved_unchecked(
                m,
            ).attacked_by(piece.color.other(), king)
    }

    /// What the generator returns for `piece` on `from`: the candidates and,
    /// where `filter_checks` is set, of them those that do not leave the
    /// king attacked.
    pub open spec fn generates(self, piece: Piece, from: SquareSpec, m: Move, filter_checks: bool) -> bool {
        &&& self.candidate(piece, from, m, filter_checks)
        &&& filter_checks ==> !self.leaves_king_attacked(piece, m)
    }

    /// A piece stands on `from`, a square of the board, and the generator,
    /// with the check filter on, returns `m` for it.
    pub open spec fn piece_may(self, from: SquareSpec, m: Move) -> bool {
        &&& from.wf()
        &&& self.at(from) matches Some(piece)
        &&& self.generates(piece, from, m, true)
    }

    /// The move is legal for `side`: for a normal move or a promotion, a
    /// piece stands on its origin and the generator, with the check filter
    /// on, returns the move for it; for a castle, `side` still holds the
    /// right.
    pub open spec fn legal(self, m: Move, side: Color) -> bool {
        match m {
            Move::Normal { from, to } => self.piece_may(from, m),
            Move::Castling(c) => self.castling.allows(c, side),
            Move::Promotion { from, to, target } => self.piece_may(from, m),
        }
    }

    /// `m` is a legal move of a piece of the side to move that stands on
    /// `from`.
    pub open spec fn offers(self, from: SquareSpec, m: Move) -> bool {
        &&& from.wf()
        &&& self.at(from) matches Some(piece)
        &&& piece.color == self.turn
        &&& self.generates(piece, from, m, true)
    }

    /// The side to move has a legal move.
    pub open spec fn can_move(self) -> bool {
        exists|from: SquareSpec, m: Move| #[trigger] self.offers(from, m)
    }

    /// The first king of the side to move is attacked by the other side.
    pub open spec fn checked(self) -> bool {
        exists|king: SquareSpec|
            #[trigger] self.first_king(self.turn, king) && self.attacked_by(self.turn.other(), king)
    }
}


/// A legal move leads from a sound position to a sound position: the grid
/// keeps its shape, and a new en-passant target is a square of the board.
pub proof fn lemma_moved_sound(pos: Position, m: Move)
    requires
        pos.sound(),
        pos.legal(m, pos.turn),
    ensures
        pos.moved(m).sound(),
{
    match m {
        Move::Normal { from, to } => {
            let piece = pos.at(from)->0;
            assert(pos.pseudo_legal(piece, from, m));
            assert(to.wf());
            if piece.piece == PieceType::Pawn {
                assert(pos.pawn_move(piece.color, from, m));
                if pos.en_passant == Some(to) {
                    assert(pawn_behind(piece.color, to).wf());
                }
                if magnitude(to.rank - from.rank) == 2 {
                    assert(pawn_ahead(piece.color, from).wf());
                }
            }
        },
        Move::Castling(side) => {},
        Move::Promotion { from, to, target } => {
            let piece = pos.at(from)->0;
            assert(pos.pseudo_legal(piece, from, m));
            assert(to.wf());
        },
    }
}

} // verus!
