//! The board and everything that lives on it.
use vstd::prelude::*;
use crate::error::Error;
use crate::piece::{Color, Piece, PieceType};

pub mod fen_parser;
pub mod fen_writer;
pub mod legal_moves;
pub mod move_types;
pub mod notation;
pub mod position;
pub mod rules;
pub mod squarespec;

pub use move_types::{Castling, Move};
pub use position::{CastlingFlags, Position};
pub use squarespec::{SquareDiff, SquareSpec};

use rules::king_of;

verus! {

/// All the information required to represent a position.
#[derive(Copy, Clone, Debug, PartialEq, Eq)]
pub struct Board {
    board: [[Option<Piece>; 8]; 8],
    turn: Color,
    castling: CastlingFlags,
    en_passant: Option<SquareSpec>,
    halfmove: u32,
    fullmove: u32,
}

impl View for Board {
    type V = Position;

    closed spec fn view(&self) -> Position {
        Position {
            cells: Seq::new(8, |r: int| self.board[r]@),
            turn: self.turn,
            castling: self.castling,
            en_passant: self.en_passant,
            halfmove: self.halfmove as nat,
            fullmove: self.fullmove as nat,
        }
    }
}

impl Board {
    /// What a board holds is a grid of eight by eight, with counters of 32 bits.
    pub proof fn lemma_view(&self)
        ensures
            self@.wf(),
            self@.fits(),
    {
    }

    /// Create a new empty `Board`
    pub fn new(turn: Color, castling: CastlingFlags) -> (b: Board)
        ensures
            b@ == Position::empty(turn, castling),
    {
        let b = Board {
            board: [[None; 8]; 8],
            turn,
            castling,
            en_passant: None,
            halfmove: 0,
            fullmove: 1,
        };
        assert(b@.cells =~~= Position::empty(turn, castling).cells);
        b
    }

    /// The board that holds the given grid and state.
    pub(crate) fn from_parts(
        rows: [[Option<Piece>; 8]; 8],
        turn: Color,
        castling: CastlingFlags,
        en_passant: Option<SquareSpec>,
        halfmove: u32,
        fullmove: u32,
    ) -> (b: Board)
        ensures
            b@ == (Position {
                cells: fen_parser::grid_of(rows),
                turn,
                castling,
                en_passant,
                halfmove: halfmove as nat,
                fullmove: fullmove as nat,
            }),
    {
        let b = Board { board: rows, turn, castling, en_passant, halfmove, fullmove };
        assert(b@.cells =~= fen_parser::grid_of(rows));
        b
    }

    /// Load a board from a line of notation: six fields, a space between
    /// each two.
    ///
    /// # Errors
    ///
    /// Returns an error if the line is not valid notation: where the
    /// placement field is at fault the error holds that field, and the whole
    /// line otherwise.
    pub fn load_fen(s: &str) -> (r: Result<Board, Error>)
        ensures
            match r {
                Ok(board) => notation::position_of(s@) == Some(board@),
                Err(e) => {
                    &&& notation::position_of(s@) is None
                    &&& e matches Error::InvalidFen(t)
                    &&& t@ == if notation::placement(notation::split(s@, ' ')[0]) is None {
                        notation::split(s@, ' ')[0]
                    } else {
                        s@
                    }
                },
            },
    {
        fen_parser::parse(s)
    }

    /// The board in its notation.
    pub fn to_string(&self) -> (s: String)
        ensures
            s@ == notation::position_text(self@),
    {
        let mut out: Vec<char> = Vec::new();
        let mut n: usize = 0;
        while n < 8
            invariant
                n <= 8,
                out@ == notation::placement_text(self@.cells, n as nat),
            decreases 8 - n,
        {
            if n > 0 {
                out.push('/');
            }
            assert(self@.cells[7 - n] == self.board[7 - n]@);
            fen_writer::push_row(&mut out, &self.board[7 - n]);
            n += 1;
        }
        out.push(' ');
        fen_writer::push_turn(&mut out, self.turn);
        out.push(' ');
        fen_writer::push_rights(&mut out, self.castling);
        out.push(' ');
        fen_writer::push_target(&mut out, self.en_passant);
        out.push(' ');
        crate::text::push_decimal(&mut out, self.halfmove);
        out.push(' ');
        crate::text::push_decimal(&mut out, self.fullmove);
        crate::text::string_of(&out)
    }

    /// Get the current player's turn
    pub fn turn(&self) -> (c: Color)
        ensures
            c == self@.turn,
    {
        self.turn
    }

    /// Get the current halfmove
    pub fn halfmove(&self) -> (n: u32)
        ensures
            n == self@.halfmove,
    {
        self.halfmove
    }

    /// Get the number of the current move
    pub fn fullmove(&self) -> (n: u32)
        ensures
            n == self@.fullmove,
    {
        self.fullmove
    }

    /// Get the en-passant target, if there is one
    pub fn en_passant(&self) -> (sq: Option<SquareSpec>)
        ensures
            sq == self@.en_passant,
    {
        self.en_passant
    }

    /// Get the castling rights that are still held
    pub fn castling(&self) -> (flags: CastlingFlags)
        ensures
            flags == self@.castling,
    {
        self.castling
    }

    /// Replaces what stands on a square.
    pub(crate) fn put(&mut self, sq: SquareSpec, content: Option<Piece>)
        requires
            sq.wf(),
        ensures
            final(self)@ == old(self)@.with(sq, content),
    {
        self.board[sq.rank as usize][sq.file as usize] = content;
        assert(self@.cells =~~= old(self)@.with(sq, content).cells);
    }

    /// Create a board initialised in the default chess starting position
    pub fn default_board() -> (b: Board)
        ensures
            b@ == Position::initial(),
    {
        let w = Color::White;
        let k = Color::Black;
        let wp = Some(Piece { piece: PieceType::Pawn, color: w });
        let bp = Some(Piece { piece: PieceType::Pawn, color: k });
        let white_pawns: [Option<Piece>; 8] = [wp, wp, wp, wp, wp, wp, wp, wp];
        let black_pawns: [Option<Piece>; 8] = [bp, bp, bp, bp, bp, bp, bp, bp];
        let blank: [Option<Piece>; 8] = [None, None, None, None, None, None, None, None];
        let b = Board {
            board: [
                [
                    Some(Piece { piece: PieceType::Rook, color: w }),
                    Some(Piece { piece: PieceType::Knight, color: w }),
                    Some(Piece { piece: PieceType::Bishop, color: w }),
                    Some(Piece { piece: PieceType::Queen, color: w }),
                    Some(Piece { piece: PieceType::King, color: w }),
                    Some(Piece { piece: PieceType::Bishop, color: w }),
                    Some(Piece { piece: PieceType::Knight, color: w }),
                    Some(Piece { piece: PieceType::Rook, color: w }),
                ],
                white_pawns,
                blank,
                blank,
                blank,
                blank,
                black_pawns,
                [
                    Some(Piece { piece: PieceType::Rook, color: k }),
                    Some(Piece { piece: PieceType::Knight, color: k }),
                    Some(Piece { piece: PieceType::Bishop, color: k }),
                    Some(Piece { piece: PieceType::Queen, color: k }),
                    Some(Piece { piece: PieceType::King, color: k }),
                    Some(Piece { piece: PieceType::Bishop, color: k }),
                    Some(Piece { piece: PieceType::Knight, color: k }),
                    Some(Piece { piece: PieceType::Rook, color: k }),
                ],
            ],
            turn: Color::White,
            castling: CastlingFlags::all(),
            en_passant: None,
            halfmove: 0,
            fullmove: 1,
        };
        proof {
            let want = Position::initial().cells;
            assert(b.board[0]@ =~= want[0]);
            assert(b.board[1]@ =~= want[1]);
            assert(b.board[2]@ =~= want[2]);
            assert(b.board[3]@ =~= want[3]);
            assert(b.board[4]@ =~= want[4]);
            assert(b.board[5]@ =~= want[5]);
            assert(b.board[6]@ =~= want[6]);
            assert(b.board[7]@ =~= want[7]);
            assert(b@.cells =~= want);
        }
        b
    }

    /// Whether castling on that side is at all allowed to that color: the
    /// right is still held.
    pub fn can_castle(&self, castle: Castling, color: Color) -> (b: bool)
        ensures
            b == self@.castling.allows(castle, color),
    {
        self.castling.contains(castle, color)
    }

    /// Get a particular color's king's square (if there is one): the first
    /// that a walk of the board from a1, rank by rank, meets.
    pub fn king(&self, king: Color) -> (r: Option<SquareSpec>)
        ensures
            match r {
                Some(sq) => self@.first_king(king, sq),
                None => self@.kingless(king),
            },
    {
        let mut rank: u32 = 0;
        while rank < 8
            invariant
                rank <= 8,
                forall|s: SquareSpec|
                    s.wf() && s.ordinal() < 8 * rank ==> #[trigger] self@.at(s) != Some(
                        king_of(king),
                    ),
            decreases 8 - rank,
        {
            let mut file: u32 = 0;
            while file < 8
                invariant
                    rank < 8,
                    file <= 8,
                    forall|s: SquareSpec|
                        s.wf() && s.ordinal() < 8 * rank + file ==> #[trigger] self@.at(s) != Some(
                            king_of(king),
                        ),
                decreases 8 - file,
            {
                let sq = SquareSpec { rank, file };
                match self[sq] {
                    Some(Piece { piece: PieceType::King, color }) => {
                        if color == king {
                            return Some(sq);
                        }
                    },
                    _ => {},
                }
                assert forall|s: SquareSpec|
                    s.wf() && s.ordinal() < 8 * rank + file + 1 implies #[trigger] self@.at(s)
                    != Some(king_of(king)) by {
                    if s.ordinal() == 8 * rank + file {
                        assert(s == sq);
                    }
                }
                file += 1;
            }
            rank += 1;
        }
        None
    }

    /// Check if a certain square on the board is threatened: whether some
    /// piece of the other color than `color` has a pseudo-legal normal move
    /// that lands on it. Whether that piece may move at all without
    /// exposing its own king does not matter.
    pub fn is_threatened(&self, color: Color, sq: SquareSpec) -> (b: bool)
        ensures
            b == self@.attacked_by(color.other(), sq),
        decreases 3int,
    {
        let attacker = color.opposite();
        let mut rank: u32 = 0;
        while rank < 8
            invariant
                rank <= 8,
                attacker == color.other(),
                forall|s: SquareSpec|
                    s.wf() && s.ordinal() < 8 * rank ==> !#[trigger] self@.attacks(attacker, s, sq),
            decreases 8 - rank,
        {
            let mut file: u32 = 0;
            while file < 8
                invariant
                    rank < 8,
                    file <= 8,
                    attacker == color.other(),
                    forall|s: SquareSpec|
                        s.wf() && s.ordinal() < 8 * rank + file ==> !#[trigger] self@.attacks(
                            attacker,
                            s,
                            sq,
                        ),
                decreases 8 - file,
            {
                let origin = SquareSpec { rank, file };
                if let Some(piece) = self[origin] {
                    if piece.color == attacker {
                        let moves = legal_moves::enumerate_legal_moves(piece, origin, self, false);
                        if legal_moves::any_lands_on(&moves, sq) {
                            proof {
                                let from = choose|from: SquareSpec| #[trigger]
                                    moves@.contains(Move::Normal { from, to: sq });
                                assert(self@.attacks(attacker, origin, sq));
                            }
                            return true;
                        }
                        assert(!moves@.contains(Move::Normal { from: origin, to: sq }));
                    }
                }
                assert forall|s: SquareSpec|
                    s.wf() && s.ordinal() < 8 * rank + file + 1 implies !#[trigger] self@.attacks(
                    attacker,
                    s,
                    sq,
                ) by {
                    if s.ordinal() == 8 * rank + file {
                        assert(s == origin);
                    }
                }
                file += 1;
            }
            rank += 1;
        }
        assert forall|s: SquareSpec| !#[trigger] self@.attacks(attacker, s, sq) by {
            if s.wf() {
                assert(s.ordinal() < 64);
            }
        }
        false
    }

    /// Check if a certain move is legal to perform. A normal move or a
    /// promotion is legal when a piece stands on its origin and the move is
    /// among the legal moves of that piece; a castle is legal when `side`
    /// still holds the right to it. Whether the way of a castle is free and
    /// safe is seen to where the moves are generated, not here.
    pub fn is_legal(&self, m: Move, side: Color) -> (b: bool)
        ensures
            b == self@.legal(m, side),
    {
        match m {
            Move::Normal { from, .. } => self.has_legal(from, m),
            Move::Promotion { from, .. } => self.has_legal(from, m),
            Move::Castling(c) => self.can_castle(c, side),
        }
    }

    /// Whether a piece stands on `from` and `m` is among its legal moves.
    fn has_legal(&self, from: SquareSpec, m: Move) -> (b: bool)
        ensures
            b == self@.piece_may(from, m),
    {
        if from.rank > 7 || from.file > 7 {
            return false;
        }
        match self[from] {
            Some(piece) => {
                let moves = legal_moves::enumerate_legal_moves(piece, from, self, true);
                legal_moves::holds(&moves, m)
            },
            None => false,
        }
    }

    /// Perform a move and return the next board. Returns [None] if the move
    /// is illegal for the side to move. The counters of the board must have
    /// room for one more.
    pub fn perform_move(&self, m: Move) -> (r: Option<Board>)
        requires
            self@.halfmove < u32::MAX,
            self@.fullmove < u32::MAX,
        ensures
            match r {
                Some(b) => self@.legal(m, self@.turn) && b@ == self@.moved(m),
                None => !self@.legal(m, self@.turn),
            },
    {
        if !self.is_legal(m, self.turn) {
            return None;
        }
        proof {
            self.lemma_view();
        }
        let mut new_board = match m {
            Move::Normal { from, to } => self.after_normal(from, to),
            Move::Castling(c) => self.after_castling(c),
            Move::Promotion { from, to, target } => self.after_promotion(from, to, target),
        };
        new_board.turn = self.turn.opposite();
        if self.turn == Color::Black {
            new_board.fullmove += 1;
        }
        Some(new_board)
    }

    /// The board after the piece on `from` has made the pseudo-legal normal
    /// move to `to`, but for the turn and the number of the move.
    fn after_normal(&self, from: SquareSpec, to: SquareSpec) -> (b: Board)
        requires
            from.wf(),
            self@.halfmove < u32::MAX,
            self@.at(from) matches Some(piece) && self@.pseudo_legal(
                piece,
                from,
                Move::Normal { from, to },
            ),
        ensures
            b@ == self@.moved_normal(from, to),
    {
        proof {
            self.lemma_view();
        }
        let mut new_board = *self;
        let mut new_en_passant: Option<SquareSpec> = None;
        let mut reset_halfmove = false;
        // a piece stands on `from`, or the move would not be pseudo-legal
        if let Some(piece) = self[from] {
            let color = piece.color;
            match piece.piece {
                PieceType::Rook => {
                    // disable castling in one direction
                    new_board.castling.remove_rook(from, color);
                },
                PieceType::King => {
                    // disable castling in both directions
                    new_board.castling.remove_color(color);
                },
                PieceType::Pawn => {
                    reset_halfmove = true;
                    if let Some(en_passant) = self.en_passant {
                        if en_passant == to {
                            let behind = match color {
                                Color::White => SquareSpec { rank: to.rank - 1, file: to.file },
                                Color::Black => SquareSpec { rank: to.rank + 1, file: to.file },
                            };
                            new_board.put(behind, None);
                        }
                    }
                    if (to - from).abs().d_rank == 2 {
                        // a pawn that moved two squares leaves the square
                        // it passed over as the new target
                        let dir = match color {
                            Color::White => SquareDiff::new(1, 0),
                            Color::Black => SquareDiff::new(-1, 0),
                        };
                        new_en_passant = Some(from + dir);
                    }
                },
                _ => {},
            }
            if self[to].is_some() {
                reset_halfmove = true;
            }
            // disable castling in that direction if a rook was taken
            if let Some(Piece { piece: PieceType::Rook, color: taken }) = self[to] {
                new_board.castling.remove_rook(to, taken);
            }
            new_board.put(to, self[from]);
            new_board.put(from, None);
            new_board.en_passant = new_en_passant;
            if reset_halfmove {
                new_board.halfmove = 0;
            } else {
                new_board.halfmove += 1;
            }
        }
        new_board
    }

    /// The board after king and rook of the side to move have castled on
    /// the side `c`, but for the turn and the number of the move.
    fn after_castling(&self, c: Castling) -> (b: Board)
        requires
            self@.halfmove < u32::MAX,
        ensures
            b@ == (Position {
                castling: self@.castling.without_color(self@.turn),
                en_passant: None,
                halfmove: self@.halfmove + 1,
                ..self@.castled(c)
            }),
    {
        proof {
            self.lemma_view();
        }
        let mut new_board = *self;
        let color = self.turn;
        let rank = color.home_rank();
        let (rf, kt, rt): (u32, u32, u32) = match c {
            Castling::Short => (7, 6, 5),
            Castling::Long => (0, 2, 3),
        };
        let king_from = SquareSpec::new(rank, 4);
        let rook_from = SquareSpec::new(rank, rf);
        let king_to = SquareSpec::new(rank, kt);
        let rook_to = SquareSpec::new(rank, rt);
        new_board.castling.remove_color(color);
        new_board.put(king_to, self[king_from]);
        new_board.put(king_from, None);
        new_board.put(rook_to, self[rook_from]);
        new_board.put(rook_from, None);
        new_board.en_passant = None;
        new_board.halfmove += 1;
        new_board
    }

    /// The board after the pawn on `from` has moved to `to` and turned into
    /// a `target`, but for the turn and the number of the move.
    fn after_promotion(&self, from: SquareSpec, to: SquareSpec, target: PieceType) -> (b: Board)
        requires
            from.wf(),
            to.wf(),
        ensures
            b@ == self@.moved_promotion(from, to, target),
    {
        let mut new_board = *self;
        if let Some(piece) = self[from] {
            // a rook may have been taken
            if let Some(Piece { piece: PieceType::Rook, color: taken }) = self[to] {
                new_board.castling.remove_rook(to, taken);
            }
            new_board.put(to, Some(Piece::new(target, piece.color)));
            new_board.put(from, None);
            new_board.en_passant = None;
            // promotions are pawn moves, so the halfmove clock starts again
            new_board.halfmove = 0;
        }
        new_board
    }

    /// Get all the legal moves for the piece on this square. If the square
    /// is empty, or if the piece on it is not of the side to move, this
    /// returns an empty vector.
    pub fn get_legal_moves(&self, piece_location: SquareSpec) -> (moves: Vec<Move>)
        ensures
            forall|m: Move|
                #![trigger moves@.contains(m)]
                moves@.contains(m) <==> self@.offers(piece_location, m),
            !piece_location.wf() ==> moves@.len() == 0,
            self@.at(piece_location) is None ==> moves@.len() == 0,
            self@.hostile(self@.turn, piece_location) ==> moves@.len() == 0,
    {
        if piece_location.rank > 7 || piece_location.file > 7 {
            return Vec::new();
        }
        if let Some(piece) = self[piece_location] {
            if piece.color != self.turn {
                return Vec::new();
            }
            legal_moves::enumerate_legal_moves(piece, piece_location, self, true)
        } else {
            Vec::new()
        }
    }

    /// Like [`Board::get_legal_moves`], but for all the pieces of the side
    /// to move.
    pub fn get_all_legal_moves(&self) -> (moves: Vec<Move>)
        ensures
            forall|m: Move|
                #![trigger moves@.contains(m)]
                moves@.contains(m) <==> exists|from: SquareSpec| #[trigger] self@.offers(from, m),
            moves@.len() == 0 <==> !self@.can_move(),
    {
        let mut all_moves: Vec<Move> = Vec::new();
        let mut rank: u32 = 0;
        while rank < 8
            invariant
                rank <= 8,
                forall|m: Move|
                    #![trigger all_moves@.contains(m)]
                    all_moves@.contains(m) <==> exists|from: SquareSpec|
                        from.ordinal() < 8 * rank && #[trigger] self@.offers(from, m),
            decreases 8 - rank,
        {
            let mut file: u32 = 0;
            while file < 8
                invariant
                    rank < 8,
                    file <= 8,
                    forall|m: Move|
                        #![trigger all_moves@.contains(m)]
                        all_moves@.contains(m) <==> exists|from: SquareSpec|
                            from.ordinal() < 8 * rank + file && #[trigger] self@.offers(from, m),
                decreases 8 - file,
            {
                let sq = SquareSpec::new(rank, file);
                let ghost before = all_moves@;
                let mut found = self.get_legal_moves(sq);
                let ghost here = found@;
                all_moves.append(&mut found);
                proof {
                    assert(all_moves@ == before + here);
                    assert forall|m: Move|
                        #![trigger all_moves@.contains(m)]
                        all_moves@.contains(m) <==> exists|from: SquareSpec|
                            from.ordinal() < 8 * rank + file + 1 && #[trigger] self@.offers(
                                from,
                                m,
                            ) by {
                        if before.contains(m) {
                            let j = choose|j: int| 0 <= j < before.len() && before[j] == m;
                            assert(all_moves@[j] == m);
                            let from = choose|from: SquareSpec|
                                from.ordinal() < 8 * rank + file && #[trigger] self@.offers(from, m);
                            assert(self@.offers(from, m));
                        }
                        if here.contains(m) {
                            let j = choose|j: int| 0 <= j < here.len() && here[j] == m;
                            assert(all_moves@[before.len() + j] == m);
                            assert(self@.offers(sq, m));
                        }
                        if all_moves@.contains(m) {
                            let j = choose|j: int| 0 <= j < all_moves@.len() && all_moves@[j] == m;
                            if j < before.len() {
                                assert(before[j] == m);
                            } else {
                                assert(here[j - before.len()] == m);
                            }
                        }
                        if exists|from: SquareSpec|
                            from.ordinal() < 8 * rank + file + 1 && #[trigger] self@.offers(from, m) {
                            let from = choose|from: SquareSpec|
                                from.ordinal() < 8 * rank + file + 1 && #[trigger] self@.offers(
                                    from,
                                    m,
                                );
                            if from.ordinal() == 8 * rank + file {
                                assert(from == sq);
                                assert(here.contains(m));
                            } else {
                                assert(before.contains(m));
                            }
                        }
                    }
                }
                file += 1;
            }
            rank += 1;
        }
        proof {
            assert forall|m: Move|
                #![trigger all_moves@.contains(m)]
                all_moves@.contains(m) <==> exists|from: SquareSpec| #[trigger] self@.offers(from, m) by {
                if exists|from: SquareSpec| #[trigger] self@.offers(from, m) {
                    let from = choose|from: SquareSpec| #[trigger] self@.offers(from, m);
                    assert(from.ordinal() < 64);
                }
                if all_moves@.contains(m) {
                    let from = choose|from: SquareSpec|
                        from.ordinal() < 64 && #[trigger] self@.offers(from, m);
                    assert(self@.offers(from, m));
                }
            }
            if all_moves@.len() > 0 {
                assert(all_moves@.contains(all_moves@[0]));
                let from = choose|from: SquareSpec| #[trigger] self@.offers(from, all_moves@[0]);
                assert(self@.offers(from, all_moves@[0]));
            }
            if self@.can_move() {
                let (from, m) = choose|from: SquareSpec, m: Move| #[trigger] self@.offers(from, m);
                assert(all_moves@.contains(m));
            }
        }
        all_moves
    }

    /// Returns whether the current player is in check: whether the first
    /// king of the side to move is attacked. A side without a king is not
    /// in check.
    pub fn in_check(&self) -> (b: bool)
        ensures
            b == self@.checked(),
    {
        match self.king(self.turn) {
            Some(king) => {
                let hit = self.is_threatened(self.turn, king);
                proof {
                    if self@.checked() {
                        let other = choose|other: SquareSpec|
                            #[trigger] self@.first_king(self@.turn, other) && self@.attacked_by(
                                self@.turn.other(),
                                other,
                            );
                        legal_moves::lemma_first_king_unique(self@, self@.turn, king, other);
                    }
                }
                hit
            },
            None => {
                proof {
                    if self@.checked() {
                        let other = choose|other: SquareSpec|
                            #[trigger] self@.first_king(self@.turn, other) && self@.attacked_by(
                                self@.turn.other(),
                                other,
                            );
                        assert(self@.at(other) != Some(king_of(self@.turn)));
                    }
                }
                false
            },
        }
    }

    /// Performs a move with wanton abandon for the rules, effectively
    /// taking any piece on the resulting squares regardless of color.
    /// Moving from an empty square empties the target too. Castling is
    /// unchecked as well. Meant for building the hypothetical positions of
    /// the check filter, not for playing a move of a game.
    pub fn unchecked_perform_move(&self, m: Move) -> (b: Board)
        requires
            m.wf(),
        ensures
            b@ == self@.moved_unchecked(m),
    {
        let mut new_board = *self;
        match m {
            Move::Normal { from, to } => {
                new_board.put(to, self[from]);
                new_board.put(from, None);
            },
            Move::Castling(c) => {
                let rank = self.turn.home_rank();
                let (rf, kt, rt): (u32, u32, u32) = match c {
                    Castling::Long => (0, 2, 3),
                    Castling::Short => (7, 6, 5),
                };
                let king_from = SquareSpec::new(rank, 4);
                let rook_from = SquareSpec::new(rank, rf);
                let king_to = SquareSpec::new(rank, kt);
                let rook_to = SquareSpec::new(rank, rt);
                new_board.put(king_to, self[king_from]);
                new_board.put(king_from, None);
                new_board.put(rook_to, self[rook_from]);
                new_board.put(rook_from, None);
                new_board.castling.remove_color(self.turn);
            },
            Move::Promotion { from, to, target } => {
                new_board.put(to, self[from]);
                new_board.put(from, None);
                if let Some(Piece { color, .. }) = new_board[to] {
                    new_board.put(to, Some(Piece { color, piece: target }));
                }
            },
        }
        new_board.turn = self.turn.opposite();
        new_board
    }
}

impl core::ops::Index<SquareSpec> for Board {
    type Output = Option<Piece>;

    /// What stands on the square.
    fn index(&self, s: SquareSpec) -> (content: &Option<Piece>)
        ensures
            *content == self@.at(s),
    {
        &self.board[s.rank as usize][s.file as usize]
    }
}

impl vstd::std_specs::core::IndexSpecImpl<SquareSpec> for Board {
    open spec fn index_req(&self, index: &SquareSpec) -> bool {
        index.wf()
    }
}

impl core::ops::Index<&str> for Board {
    type Output = Option<Piece>;

    /// What stands on the square of that name.
    fn index(&self, s: &str) -> (content: &Option<Piece>)
        ensures
            SquareSpec::of_text(s@) matches Some(sq) && *content == self@.at(sq),
    {
        match <SquareSpec as core::str::FromStr>::from_str(s) {
            Ok(sq) => &self.board[sq.rank as usize][sq.file as usize],
            Err(_) => vstd::pervasive::unreached(),
        }
    }
}

impl vstd::std_specs::core::IndexSpecImpl<&str> for Board {
    open spec fn index_req(&self, index: &&str) -> bool {
        SquareSpec::of_text(index@) is Some
    }
}

impl Default for Board {
    fn default() -> (b: Board)
        ensures
            b@ == Position::initial(),
    {
        Board::default_board()
    }
}

} // verus!
