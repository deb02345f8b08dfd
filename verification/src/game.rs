//! The [`Game`] type: the history of a game in progress and its status.
use vstd::prelude::*;
use crate::board::notation::{lemma_notation_round_trip, position_of, position_text};
use crate::board::rules::lemma_moved_sound;
use crate::board::{Board, Move, Position};
use crate::piece::Color;

verus! {

/// The states a game can be in, most importantly the final ones.
#[derive(Debug, Copy, Clone, PartialEq, Eq, Structural)]
pub enum BoardState {
    /// The game is in a normal state, and you can play as normal
    Normal,
    /// The current player is in check
    Check,
    /// The current player is in checkmate
    Checkmate,
    /// The game has been drawn
    Draw,
    /// The current player has no legal moves and the game has been drawn
    Stalemate,
}

/// A chess game, starting in the default position with white going first.
#[derive(Debug, Clone)]
pub struct Game {
    boards: Vec<Board>,
    moves: Vec<Move>,
    board_state: BoardState,
}

/// What a game holds: the positions so far, the moves that led from each to
/// the next, and the status.
pub struct GameView {
    /// Every position of the game, the start position first
    pub boards: Seq<Position>,
    /// The moves played, one fewer than the positions
    pub moves: Seq<Move>,
    /// The status as it was last computed
    pub status: BoardState,
}

/// The status of a game that has just reached `pos`: checkmate or stalemate
/// where the side to move has no legal move, with its king attacked or not;
/// check where it has one and its king is attacked; else a draw where the
/// halfmove clock stands at 50, and normal otherwise.
pub open spec fn status_of(pos: Position) -> BoardState {
    if !pos.can_move() && pos.checked() {
        BoardState::Checkmate
    } else if !pos.can_move() {
        BoardState::Stalemate
    } else if pos.checked() {
        BoardState::Check
    } else if pos.halfmove == 50 {
        BoardState::Draw
    } else {
        BoardState::Normal
    }
}

impl BoardState {
    /// The game is over: no further move is accepted.
    pub open spec fn terminal(self) -> bool {
        self == BoardState::Checkmate || self == BoardState::Draw || self == BoardState::Stalemate
    }
}

impl GameView {
    /// The history hangs together: it starts at the start position, every
    /// position is sound, each move was legal where it was played and led
    /// to the next position, and no counter has outrun the number of moves
    /// played.
    pub open spec fn wf(self) -> bool {
        &&& self.boards.len() == self.moves.len() + 1
        &&& self.boards[0] == Position::initial()
        &&& forall|i: int|
            0 <= i < self.boards.len() ==> {
                &&& (#[trigger] self.boards[i]).sound()
                &&& self.boards[i].halfmove <= i
                &&& self.boards[i].fullmove <= i + 1
            }
        &&& forall|i: int|
            0 <= i < self.moves.len() ==> {
                &&& self.boards[i].legal(#[trigger] self.moves[i], self.boards[i].turn)
                &&& self.boards[i + 1] == self.boards[i].moved(self.moves[i])
            }
    }

    /// The latest position.
    pub open spec fn current(self) -> Position {
        self.boards.last()
    }

    /// The move is accepted: the game is not over and the move is legal for
    /// the side to move.
    pub open spec fn accepts(self, m: Move) -> bool {
        !self.status.terminal() && self.current().legal(m, self.current().turn)
    }

    /// The game after an accepted move: one position and one move longer,
    /// with the status of the new position.
    pub open spec fn played(self, m: Move) -> GameView {
        let next = self.current().moved(m);
        GameView { boards: self.boards.push(next), moves: self.moves.push(m), status: status_of(next) }
    }

    /// The game with its latest position and move taken away; the status
    /// stays as it was.
    pub open spec fn undone(self) -> GameView {
        GameView {
            boards: self.boards.drop_last(),
            moves: self.moves.drop_last(),
            status: self.status,
        }
    }
}

/// A side without a legal move is checkmated where its king is attacked and
/// stalemated where it is not; either way the game is over.
pub proof fn lemma_status_without_moves(pos: Position)
    requires
        !pos.can_move(),
    ensures
        pos.checked() ==> status_of(pos) == BoardState::Checkmate,
        !pos.checked() ==> status_of(pos) == BoardState::Stalemate,
        status_of(pos).terminal(),
{
}

/// An accepted move that leaves the side to move without a legal move ends
/// the game: in checkmate where that side's king is attacked, in stalemate
/// where it is not. No move is accepted after that.
pub proof fn lemma_game_ends_without_moves(g: GameView, m: Move, after: Move)
    requires
        g.accepts(m),
        !g.current().moved(m).can_move(),
    ensures
        g.current().moved(m).checked() ==> g.played(m).status == BoardState::Checkmate,
        !g.current().moved(m).checked() ==> g.played(m).status == BoardState::Stalemate,
        !g.played(m).accepts(after),
{
}

/// A position whose halfmove clock stands at 50 is a draw, wherever the
/// side to move has a legal move and is not in check; the pieces on the
/// board do not matter.
pub proof fn lemma_fifty_moves_draw(pos: Position)
    requires
        pos.halfmove == 50,
        pos.can_move(),
        !pos.checked(),
    ensures
        status_of(pos) == BoardState::Draw,
        status_of(pos).terminal(),
{
}

/// The notation of every position that a game has reached reads back as
/// that position, as long as the game is short enough for its counters to
/// fit 32 bits.
pub proof fn lemma_positions_read_back(g: GameView, i: int)
    requires
        g.wf(),
        g.moves.len() < u32::MAX,
        0 <= i < g.boards.len(),
    ensures
        position_of(position_text(g.boards[i])) == Some(g.boards[i]),
{
    assert(g.boards[i].sound());
    lemma_notation_round_trip(g.boards[i]);
}

/// Taking back the latest move of a game that is not over and playing that
/// move again gives back the positions and the moves of the game as they
/// were, the latest position among them.
pub proof fn lemma_undo_then_replay(g: GameView)
    requires
        g.wf(),
        g.moves.len() > 0,
        !g.status.terminal(),
    ensures
        g.undone().accepts(g.moves.last()),
        g.undone().played(g.moves.last()).boards == g.boards,
        g.undone().played(g.moves.last()).moves == g.moves,
        g.undone().played(g.moves.last()).current() == g.current(),
{
    let n = g.moves.len() as int;
    let m = g.moves[n - 1];
    let back = g.undone();
    assert(back.current() == g.boards[n - 1]);
    assert(g.boards[n - 1].legal(m, g.boards[n - 1].turn));
    assert(g.boards[n] == g.boards[n - 1].moved(m));
    assert(back.played(m).boards =~= g.boards);
    assert(back.played(m).moves =~= g.moves);
}

impl View for Game {
    type V = GameView;

    closed spec fn view(&self) -> GameView {
        GameView {
            boards: self.boards@.map_values(|b: Board| b@),
            moves: self.moves@,
            status: self.board_state,
        }
    }
}

impl Game {
    /// The history of the game hangs together.
    pub open spec fn wf(&self) -> bool {
        self@.wf()
    }

    /// Create a new game initialised to the default chess position
    pub fn new() -> (g: Game)
        ensures
            g.wf(),
            g@.boards == seq![Position::initial()],
            g@.moves == Seq::<Move>::empty(),
            g@.status == BoardState::Normal,
    {
        let mut boards: Vec<Board> = Vec::new();
        let start = Board::default_board();
        proof {
            start.lemma_view();
        }
        boards.push(start);
        let g = Game { boards, moves: Vec::new(), board_state: BoardState::Normal };
        assert(g@.boards =~= seq![Position::initial()]);
        g
    }

    /// Get the current board state
    pub fn board_state(&self) -> (s: BoardState)
        ensures
            s == self@.status,
    {
        self.board_state
    }

    /// Get a list of all boards so far
    pub fn get_boards(&self) -> (boards: &[Board])
        ensures
            boards@.map_values(|b: Board| b@) == self@.boards,
    {
        self.boards.as_slice()
    }

    /// Get a list of all moves so far
    pub fn get_moves(&self) -> (moves: &[Move])
        ensures
            moves@ == self@.moves,
    {
        self.moves.as_slice()
    }

    /// Make a move, if it is legal, and return the new board. Returns
    /// [None], and leaves the game as it was, if the game is over or the
    /// move is illegal. The game must have room for one more move: its
    /// counters have 32 bits.
    pub fn make_move(&mut self, next_move: Move) -> (r: Option<&Board>)
        requires
            old(self).wf(),
            old(self)@.moves.len() < u32::MAX - 1,
        ensures
            final(self).wf(),
            match r {
                Some(b) => {
                    &&& old(self)@.accepts(next_move)
                    &&& final(self)@ == old(self)@.played(next_move)
                    &&& b@ == final(self)@.current()
                },
                None => !old(self)@.accepts(next_move) && final(self)@ == old(self)@,
            },
    {
        match self.board_state {
            BoardState::Draw | BoardState::Stalemate | BoardState::Checkmate => return None,
            _ => (),
        }
        let last_board = self.boards[self.boards.len() - 1];
        assert(last_board@ == self@.boards[self.boards.len() - 1]);
        let next_board = match last_board.perform_move(next_move) {
            Some(board) => board,
            None => return None,
        };
        proof {
            next_board.lemma_view();
            assert(old(self)@.current().sound());
            lemma_moved_sound(old(self)@.current(), next_move);
        }
        self.boards.push(next_board);
        self.moves.push(next_move);
        self.update_boardstate();
        proof {
            assert(self@.boards =~= old(self)@.boards.push(next_board@));
            assert(self@ == old(self)@.played(next_move));
            let before = old(self)@;
            let after = self@;
            assert forall|i: int| 0 <= i < after.boards.len() implies {
                &&& (#[trigger] after.boards[i]).sound()
                &&& after.boards[i].halfmove <= i
                &&& after.boards[i].fullmove <= i + 1
            } by {
                if i < before.boards.len() {
                    assert(after.boards[i] == before.boards[i]);
                }
            }
            assert forall|i: int| 0 <= i < after.moves.len() implies {
                &&& after.boards[i].legal(#[trigger] after.moves[i], after.boards[i].turn)
                &&& after.boards[i + 1] == after.boards[i].moved(after.moves[i])
            } by {
                if i < before.moves.len() {
                    assert(after.moves[i] == before.moves[i]);
                    assert(after.boards[i] == before.boards[i]);
                    assert(after.boards[i + 1] == before.boards[i + 1]);
                }
            }
        }
        Some(&self.boards[self.boards.len() - 1])
    }

    /// Brings the status up to date with the latest position.
    fn update_boardstate(&mut self)
        requires
            old(self).boards@.len() > 0,
        ensures
            final(self)@.boards == old(self)@.boards,
            final(self)@.moves == old(self)@.moves,
            final(self)@.status == status_of(old(self)@.current()),
    {
        let board = self.boards[self.boards.len() - 1];
        assert(board@ == self@.current());
        let legal_moves = board.get_all_legal_moves();
        let in_check = board.in_check();
        if legal_moves.is_empty() && in_check {
            self.board_state = BoardState::Checkmate;
        } else if legal_moves.is_empty() {
            self.board_state = BoardState::Stalemate;
        } else if in_check {
            self.board_state = BoardState::Check;
        } else if board.halfmove() == 50 {
            self.board_state = BoardState::Draw;
        } else {
            self.board_state = BoardState::Normal;
        }
    }

    /// Get which player is supposed to go next
    pub fn next_player(&self) -> (c: Color)
        requires
            self.wf(),
        ensures
            c == self@.current().turn,
    {
        self.boards[self.boards.len() - 1].turn()
    }

    /// Get all legal moves for the current player
    pub fn get_all_legal_moves(&self) -> (moves: Vec<Move>)
        requires
            self.wf(),
        ensures
            forall|m: Move|
                #![trigger moves@.contains(m)]
                moves@.contains(m) <==> exists|from: crate::board::SquareSpec| #[trigger]
                    self@.current().offers(from, m),
            moves@.len() == 0 <==> !self@.current().can_move(),
    {
        self.boards[self.boards.len() - 1].get_all_legal_moves()
    }

    /// Get a reference to the current (latest) board
    pub fn current_board(&self) -> (b: &Board)
        requires
            self.wf(),
        ensures
            b@ == self@.current(),
    {
        &self.boards[self.boards.len() - 1]
    }

    /// Undo the last move: returns, and takes out of the history, the latest
    /// board and the move that led to it, or returns `None` where no move
    /// has been played. The status is left as it was.
    pub fn undo_move(&mut self) -> (r: Option<(Board, Move)>)
        requires
            old(self).wf(),
        ensures
            final(self).wf(),
            match r {
                Some((board, m)) => {
                    &&& old(self)@.moves.len() > 0
                    &&& board@ == old(self)@.current()
                    &&& m == old(self)@.moves.last()
                    &&& final(self)@ == old(self)@.undone()
                },
                None => old(self)@.moves.len() == 0 && final(self)@ == old(self)@,
            },
    {
        match self.moves.pop() {
            Some(m) => match self.boards.pop() {
                Some(board) => {
                    proof {
                        assert(self@.boards =~= old(self)@.boards.drop_last());
                        let before = old(self)@;
                        let after = self@;
                        assert forall|i: int| 0 <= i < after.boards.len() implies {
                            &&& (#[trigger] after.boards[i]).sound()
                            &&& after.boards[i].halfmove <= i
                            &&& after.boards[i].fullmove <= i + 1
                        } by {
                            assert(after.boards[i] == before.boards[i]);
                        }
                        assert forall|i: int| 0 <= i < after.moves.len() implies {
                            &&& after.boards[i].legal(#[trigger] after.moves[i], after.boards[i].turn)
                            &&& after.boards[i + 1] == after.boards[i].moved(after.moves[i])
                        } by {
                            assert(after.moves[i] == before.moves[i]);
                            assert(after.boards[i] == before.boards[i]);
                            assert(after.boards[i + 1] == before.boards[i + 1]);
                        }
                    }
                    Some((board, m))
                },
                None => None,
            },
            None => None,
        }
    }
}

impl Default for Game {
    fn default() -> (g: Game)
        ensures
            g.wf(),
            g@.boards == seq![Position::initial()],
            g@.moves == Seq::<Move>::empty(),
            g@.status == BoardState::Normal,
    {
        Game::new()
    }
}

} // verus!
