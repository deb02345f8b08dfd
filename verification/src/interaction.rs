//! What a hover over a piece and the drop of a piece on a square mean for a
//! board and a game: the decisions of a front end, free of any screen.
use vstd::prelude::*;
use crate::board::legal_moves::holds;
use crate::board::{Board, Castling, Move, Position, SquareDiff, SquareSpec};
use crate::game::{Game, GameView};
use crate::piece::{Color, PieceType};

verus! {

/// How a square is marked while a piece is hovered.
#[derive(Clone, Copy, Debug, PartialEq, Eq, Structural)]
pub enum ChessSquare {
    /// Not a target of the hovered piece
    Normal,
    /// The piece may move here
    Movable,
    /// The piece may take what stands here
    Capturable,
    /// The king lands here when it castles
    Castlable,
    /// The pawn is promoted here
    Promotable,
}

/// What became of a piece that was put down on a square.
#[derive(Clone, Copy, Debug, PartialEq, Eq, Structural)]
pub enum Placement {
    /// The square lies on the far rank of the piece: the kind to promote to
    /// has to be asked for, and nothing was played
    PromotionAsked,
    /// The piece went back to its square, or a move was played
    Settled,
    /// No move was accepted: the piece stays in the hand
    Held,
}

/// The other color, if there is a color.
pub fn other_color(color: Option<Color>) -> (r: Option<Color>)
    ensures
        r == match color {
            Some(c) => Some(c.other()),
            None => None,
        },
{
    match color {
        Some(Color::White) => Some(Color::Black),
        Some(Color::Black) => Some(Color::White),
        None => None,
    }
}

/// The square on which a move lands a piece; a castle names none.
pub open spec fn destination(m: Move) -> Option<SquareSpec> {
    match m {
        Move::Normal { from, to } => Some(to),
        Move::Castling(_) => None,
        Move::Promotion { from, to, target } => Some(to),
    }
}

/// The offset by which the king is dragged to castle on `side`: two files
/// towards that side.
pub open spec fn castle_drag(side: Castling) -> SquareDiff {
    match side {
        Castling::Short => SquareDiff { d_rank: 0, d_file: 2 },
        Castling::Long => SquareDiff { d_rank: 0, d_file: -2i32 },
    }
}

impl Position {
    /// A legal move of the piece of the side to move on `from`, other than
    /// a castle, lands on `to`.
    pub open spec fn lands(self, from: SquareSpec, to: SquareSpec) -> bool {
        exists|m: Move| #[trigger] self.offers(from, m) && destination(m) == Some(to)
    }

    /// The piece on `from` is a pawn, and `rank` is the rank on which the
    /// pawns of its color are promoted.
    pub open spec fn promotes_on(self, from: SquareSpec, rank: int) -> bool {
        self.at(from) matches Some(p) && p.piece == PieceType::Pawn && rank
            == p.color.other().spec_home_rank()
    }

    /// How `sq` is marked while the piece on `hovered` is hovered: as the
    /// target of a promotion, of a capture or of a plain move where a legal
    /// move of the piece lands on it; as the target of a castle where it
    /// lies two files from the piece and that castle is among the legal
    /// moves of the piece; as nothing otherwise.
    pub open spec fn highlight(self, hovered: SquareSpec, sq: SquareSpec) -> ChessSquare {
        if self.lands(hovered, sq) {
            if self.promotes_on(hovered, sq.rank as int) {
                ChessSquare::Promotable
            } else if self.at(sq) is Some {
                ChessSquare::Capturable
            } else {
                ChessSquare::Movable
            }
        } else if (sq.offset_from(hovered) == castle_drag(Castling::Long) && self.offers(
            hovered,
            Move::Castling(Castling::Long),
        )) || (sq.offset_from(hovered) == castle_drag(Castling::Short) && self.offers(
            hovered,
            Move::Castling(Castling::Short),
        )) {
            ChessSquare::Castlable
        } else {
            ChessSquare::Normal
        }
    }

    /// A piece stands on `from`, and `to` lies on the rank on which its
    /// color starts the other way: the drop asks for a promotion.
    pub open spec fn asks_promotion(self, from: SquareSpec, to: SquareSpec) -> bool {
        self.at(from) matches Some(p) && to.rank == p.color.other().spec_home_rank()
    }

    /// A king stands on `from`, and `to` lies two files from it towards
    /// `side`: the drop stands for that castle.
    pub open spec fn castle_gesture(self, from: SquareSpec, to: SquareSpec, side: Castling) -> bool {
        &&& to.offset_from(from) == castle_drag(side)
        &&& self.at(from) matches Some(p)
        &&& p.piece == PieceType::King
    }
}

/// Whether a promotion or a normal move among the moves lands on `sq`.
pub fn any_ends_on(moves: &Vec<Move>, sq: SquareSpec) -> (b: bool)
    ensures
        b <==> exists|m: Move| #[trigger] moves@.contains(m) && destination(m) == Some(sq),
{
    let mut i: usize = 0;
    while i < moves.len()
        invariant
            i <= moves.len(),
            forall|j: int| 0 <= j < i ==> destination(#[trigger] moves@[j]) != Some(sq),
        decreases moves.len() - i,
    {
        let to = match moves[i] {
            Move::Normal { to, .. } => Some(to),
            Move::Promotion { to, .. } => Some(to),
            Move::Castling(_) => None,
        };
        if to == Some(sq) {
            assert(moves@.contains(moves@[i as int]));
            return true;
        }
        i += 1;
    }
    proof {
        assert forall|m: Move| #[trigger] moves@.contains(m) implies destination(m) != Some(sq) by {
            let j = choose|j: int| 0 <= j < moves@.len() && moves@[j] == m;
            assert(destination(moves@[j]) != Some(sq));
        }
    }
    false
}

/// How each square is marked while the piece on `hovered` is hovered: one
/// mark for each square, in a rank-by-rank walk of the board from a1.
pub fn possible_moves_hover(board: &Board, hovered: SquareSpec) -> (marks: Vec<ChessSquare>)
    requires
        hovered.wf(),
    ensures
        marks@.len() == 64,
        forall|sq: SquareSpec|
            sq.wf() ==> marks@[sq.ordinal()] == #[trigger] board@.highlight(hovered, sq),
{
    let ghost pos = board@;
    let piece = board[hovered];
    let moves = board.get_legal_moves(hovered);
    let long = holds(&moves, Move::Castling(Castling::Long));
    let short = holds(&moves, Move::Castling(Castling::Short));
    let mut marks: Vec<ChessSquare> = Vec::new();
    let mut rank: u32 = 0;
    while rank < 8
        invariant
            rank <= 8,
            hovered.wf(),
            pos == board@,
            piece == pos.at(hovered),
            long == pos.offers(hovered, Move::Castling(Castling::Long)),
            short == pos.offers(hovered, Move::Castling(Castling::Short)),
            forall|m: Move| #![trigger moves@.contains(m)] moves@.contains(m) <==> pos.offers(hovered, m),
            marks@.len() == 8 * rank,
            forall|sq: SquareSpec|
                sq.wf() && sq.ordinal() < 8 * rank ==> marks@[sq.ordinal()] == #[trigger] pos.highlight(
                    hovered,
                    sq,
                ),
        decreases 8 - rank,
    {
        let mut file: u32 = 0;
        while file < 8
            invariant
                rank < 8,
                file <= 8,
                hovered.wf(),
                pos == board@,
                piece == pos.at(hovered),
                long == pos.offers(hovered, Move::Castling(Castling::Long)),
                short == pos.offers(hovered, Move::Castling(Castling::Short)),
                forall|m: Move|
                    #![trigger moves@.contains(m)]
                    moves@.contains(m) <==> pos.offers(hovered, m),
                marks@.len() == 8 * rank + file,
                forall|sq: SquareSpec|
                    sq.wf() && sq.ordinal() < 8 * rank + file ==> marks@[sq.ordinal()]
                        == #[trigger] pos.highlight(hovered, sq),
            decreases 8 - file,
        {
            let sq = SquareSpec::new(rank, file);
            let ghost before = marks@;
            let mark = if any_ends_on(&moves, sq) {
                proof {
                    let m = choose|m: Move| #[trigger]
                        moves@.contains(m) && destination(m) == Some(sq);
                    assert(pos.offers(hovered, m));
                }
                let promotes = match piece {
                    Some(p) => p.piece == PieceType::Pawn && sq.rank == p.color.opposite().home_rank(),
                    None => false,
                };
                if promotes {
                    ChessSquare::Promotable
                } else if board[sq].is_some() {
                    ChessSquare::Capturable
                } else {
                    ChessSquare::Movable
                }
            } else {
                proof {
                    if pos.lands(hovered, sq) {
                        let m = choose|m: Move| #[trigger]
                            pos.offers(hovered, m) && destination(m) == Some(sq);
                        assert(moves@.contains(m));
                    }
                }
                let drag = sq - hovered;
                if (drag.d_rank == 0 && drag.d_file == -2 && long) || (drag.d_rank == 0
                    && drag.d_file == 2 && short) {
                    ChessSquare::Castlable
                } else {
                    ChessSquare::Normal
                }
            };
            assert(mark == pos.highlight(hovered, sq));
            marks.push(mark);
            proof {
                assert forall|other: SquareSpec|
                    other.wf() && other.ordinal() < 8 * rank + file + 1 implies marks@[other.ordinal()]
                    == #[trigger] pos.highlight(hovered, other) by {
                    if other.ordinal() == 8 * rank + file {
                        assert(other == sq);
                    } else {
                        assert(marks@[other.ordinal()] == before[other.ordinal()]);
                    }
                }
            }
            file += 1;
        }
        rank += 1;
    }
    marks
}

/// What the drop on `to` of the piece picked up on `from` comes to, and the
/// game after it.
///
/// Where a piece stands on `from` and `to` lies on the far rank of its
/// color, a promotion is asked for and nothing is played. Else the piece is
/// settled where it is dropped on its own square; where the normal move
/// from `from` to `to` is accepted, which is then played; and where a king
/// is dropped two files to its side and the castle to that side is
/// accepted, which is then played, the queen's side being tried first.
/// Else the piece is held, and nothing is played.
pub open spec fn dropped(g: GameView, from: SquareSpec, to: SquareSpec) -> (Placement, GameView) {
    let pos = g.current();
    let normal = Move::Normal { from, to };
    let long = Move::Castling(Castling::Long);
    let short = Move::Castling(Castling::Short);
    if pos.asks_promotion(from, to) {
        (Placement::PromotionAsked, g)
    } else if to == from {
        (Placement::Settled, g)
    } else if g.accepts(normal) {
        (Placement::Settled, g.played(normal))
    } else if pos.castle_gesture(from, to, Castling::Long) && g.accepts(long) {
        (Placement::Settled, g.played(long))
    } else if pos.castle_gesture(from, to, Castling::Short) && g.accepts(short) {
        (Placement::Settled, g.played(short))
    } else {
        (Placement::Held, g)
    }
}

/// Puts the piece that was picked up on `from` down on `to`, and plays the
/// move that this stands for, if it stands for one that is accepted. The
/// game must have room for one more move.
pub fn put_down_piece(game: &mut Game, from: SquareSpec, to: SquareSpec) -> (placement: Placement)
    requires
        old(game).wf(),
        from.wf(),
        to.wf(),
        old(game)@.moves.len() < u32::MAX - 1,
    ensures
        final(game).wf(),
        (placement, final(game)@) == dropped(old(game)@, from, to),
{
    let piece = game.current_board()[from];
    let far = match piece {
        Some(p) => to.rank == p.color.opposite().home_rank(),
        None => false,
    };
    if far {
        return Placement::PromotionAsked;
    }
    if to == from {
        return Placement::Settled;
    }
    if game.make_move(Move::Normal { from, to }).is_some() {
        return Placement::Settled;
    }
    let king = match piece {
        Some(p) => p.piece == PieceType::King,
        None => false,
    };
    let drag = to - from;
    if king && drag.d_rank == 0 && drag.d_file == -2 {
        if game.make_move(Move::Castling(Castling::Long)).is_some() {
            return Placement::Settled;
        }
    }
    if king && drag.d_rank == 0 && drag.d_file == 2 {
        if game.make_move(Move::Castling(Castling::Short)).is_some() {
            return Placement::Settled;
        }
    }
    Placement::Held
}

} // verus!
